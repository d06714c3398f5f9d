//! The pixel-buffer producers: the plain gradient test card, the one-ray
//! per pixel renderer, and the multi-sample antialiasing renderer.
//!
//! Buffers are row-major, top row first, left to right, with the viewport
//! coordinate convention `u = col/width`, `v = (height-1-row)/height`.

use vstd::prelude::*;

use crate::camera::Camera;
use crate::camera::spec_ray_direction;
use crate::color::ColorMode;
use crate::color::color_at;
use crate::color::spec_color_at;
use crate::fixed::SCALE;
use crate::fixed::lemma_div_trunc_mag;
use crate::material::Lambertian;
use crate::material::Material;
use crate::material::Metal;
use crate::material::color01;
use crate::ray::Ray;
use crate::renderable::Renderable;
use crate::renderable::Sphere;
use crate::renderable::wf_sphere;
use crate::rgb::spec_gamma_rgb;
use crate::rgb::spec_rgb;
use crate::rgb::to_u32_rgb;
use crate::rgb::gamma_2_correct;
use crate::rng::next_unit_fraction;
use crate::vector::Vec3;
use crate::vector::bounded;

verus! {

/// A normalized screen coordinate in raw units: `(index * SCALE) / size`.
pub open spec fn spec_screen_frac(index: int, size: int) -> int {
    (index * (SCALE as int)) / size
}

/// The gradient test card's pixel at column `i`, row-from-bottom `j`.
pub open spec fn spec_gradient_pixel(x_size: int, y_size: int, i: int, j: int) -> int {
    spec_rgb(
        Vec3 {
            x: spec_screen_frac(i, x_size) as i128,
            y: spec_screen_frac(j, y_size) as i128,
            z: 3355443i128,
        },
    )
}

/// One screen fraction, computed exactly.
fn screen_frac(index: usize, size: usize) -> (r: i128)
    requires
        index < size,
    ensures
        r == spec_screen_frac(index as int, size as int),
        0 <= r < SCALE,
{
    proof {
        vstd::arithmetic::div_mod::lemma_div_pos_is_pos(index as int * (SCALE as int),
            size as int);
        vstd::arithmetic::div_mod::lemma_div_is_ordered(index as int * (SCALE as int),
            size as int * (SCALE as int) - 1, size as int);
        vstd::arithmetic::div_mod::lemma_fundamental_div_mod_converse(
            size as int * (SCALE as int) - 1, size as int, SCALE as int - 1, size as int - 1);
        assert(index as int * (SCALE as int) <= size as int * (SCALE as int) - 1)
            by (nonlinear_arith)
            requires
                index < size,
        ;
    }
    (((index as u128) * 16777216u128) / (size as u128)) as i128
}

/// The gradient test card: red grows to the right, green grows upward,
/// blue fixed at one fifth; rows written top to bottom.
pub fn create_buffer(x_size: usize, y_size: usize) -> (buffer: Vec<u32>)
    requires
        x_size * y_size <= usize::MAX,
    ensures
        buffer@.len() == x_size * y_size,
        forall|k: int|
            0 <= k < buffer@.len() ==> #[trigger] buffer@[k] == spec_gradient_pixel(
                x_size as int,
                y_size as int,
                k % (x_size as int),
                y_size - 1 - (k / (x_size as int)),
            ),
{
    let mut buffer: Vec<u32> = Vec::new();
    let mut j: usize = y_size;
    while j > 0
        invariant
            j <= y_size,
            x_size * y_size <= usize::MAX,
            buffer@.len() == (y_size - j) * x_size,
            forall|k: int|
                0 <= k < buffer@.len() ==> #[trigger] buffer@[k] == spec_gradient_pixel(
                    x_size as int,
                    y_size as int,
                    k % (x_size as int),
                    y_size - 1 - (k / (x_size as int)),
                ),
        decreases j,
    {
        j = j - 1;
        let row: usize = y_size - 1 - j;
        let mut i: usize = 0;
        proof {
            assert(row * x_size + x_size == (y_size - j) * x_size) by (nonlinear_arith)
                requires
                    row == y_size - 1 - j,
            ;
            assert((y_size - j) * x_size <= y_size * x_size) by (nonlinear_arith)
                requires
                    j <= y_size,
                    0 <= x_size,
            ;
        }
        while i < x_size
            invariant
                i <= x_size,
                j < y_size,
                row == y_size - 1 - j,
                x_size * y_size <= usize::MAX,
                row * x_size + x_size == (y_size - j) * x_size,
                (y_size - j) * x_size <= y_size * x_size,
                buffer@.len() == row * x_size + i,
                forall|k: int|
                    0 <= k < buffer@.len() ==> #[trigger] buffer@[k] == spec_gradient_pixel(
                        x_size as int,
                        y_size as int,
                        k % (x_size as int),
                        y_size - 1 - (k / (x_size as int)),
                    ),
            decreases x_size - i,
        {
            let u = screen_frac(i, x_size);
            let v = screen_frac(j, y_size);
            let rgb_vec = Vec3::new(u, v, 3355443);
            let rgb = to_u32_rgb(&rgb_vec);
            proof {
                vstd::arithmetic::div_mod::lemma_fundamental_div_mod_converse(
                    row as int * x_size as int + i as int, x_size as int, row as int, i as int);
            }
            buffer.push(rgb);
            i = i + 1;
        }
    }
    proof {
        assert(y_size as int * x_size as int == x_size as int * y_size as int)
            by (nonlinear_arith);
    }
    buffer
}

/// The fixed demo viewport: x spans [-2, 2], y spans [-1, 1], image plane
/// at z = -1, eye at the origin.
pub open spec fn spec_camera() -> Camera {
    Camera {
        bottom_left: Vec3 { x: -33554432i128, y: -16777216i128, z: -16777216i128 },
        horizontal: Vec3 { x: 67108864i128, y: 0i128, z: 0i128 },
        vertical: Vec3 { x: 0i128, y: 33554432i128, z: 0i128 },
        origin: Vec3 { x: 0i128, y: 0i128, z: 0i128 },
    }
}

/// The camera ray of column `i`, row-from-bottom `j`.
pub open spec fn spec_buffer_ray(x_size: int, y_size: int, i: int, j: int) -> Ray {
    Ray {
        origin: Vec3 { x: 0i128, y: 0i128, z: 0i128 },
        direction: spec_ray_direction(
            spec_camera(),
            spec_screen_frac(i, x_size),
            spec_screen_frac(j, y_size),
        ),
    }
}

/// A pixel of the one-sample renderer under the stochastic shader: the
/// packed form of some unit-interval color.
pub open spec fn shaded_pixel(p: u32) -> bool {
    exists|c: Vec3| color01(c) && p == #[trigger] spec_rgb(c)
}

/// A pixel of the sampling renderer: the packed, gamma-corrected form of
/// some averaged color within the accumulator's per-sample bounds.
pub open spec fn sampled_pixel(p: u32) -> bool {
    exists|c: Vec3| bounded(c, SCALE as int + 64) && p == #[trigger] spec_gamma_rgb(c)
}

/// One ray per pixel through the demo camera, shaded by `mode`; for the
/// deterministic shaders every pixel is pinned exactly.
pub fn create_ray_buffer(
    x_size: usize,
    y_size: usize,
    world: &Vec<Sphere>,
    mode: ColorMode,
    rng: &mut rand::rngs::StdRng,
) -> (buffer: Vec<u32>)
    requires
        world.wf(),
        x_size * y_size <= usize::MAX,
    ensures
        buffer@.len() == x_size * y_size,
        forall|k: int| 0 <= k < buffer@.len() ==> #[trigger] buffer@[k] <= 16777215,
        mode == ColorMode::Scatter ==> forall|k: int|
            0 <= k < buffer@.len() ==> shaded_pixel(#[trigger] buffer@[k]),
        mode != ColorMode::Scatter ==> forall|k: int|
            0 <= k < buffer@.len() ==> #[trigger] buffer@[k] == spec_rgb(
                spec_color_at(
                    mode,
                    spec_buffer_ray(
                        x_size as int,
                        y_size as int,
                        k % (x_size as int),
                        y_size - 1 - (k / (x_size as int)),
                    ),
                    world@,
                ),
            ),
{
    let camera = Camera::new(
        Vec3::new(-33554432, -16777216, -16777216),
        Vec3::new(67108864, 0, 0),
        Vec3::new(0, 33554432, 0),
        Vec3::new(0, 0, 0),
    );
    let mut buffer: Vec<u32> = Vec::new();
    let mut j: usize = y_size;
    while j > 0
        invariant
            j <= y_size,
            x_size * y_size <= usize::MAX,
            world.wf(),
            camera == spec_camera(),
            buffer@.len() == (y_size - j) * x_size,
            forall|k: int| 0 <= k < buffer@.len() ==> #[trigger] buffer@[k] <= 16777215,
            mode == ColorMode::Scatter ==> forall|k: int|
                0 <= k < buffer@.len() ==> shaded_pixel(#[trigger] buffer@[k]),
            mode != ColorMode::Scatter ==> forall|k: int|
                0 <= k < buffer@.len() ==> #[trigger] buffer@[k] == spec_rgb(
                    spec_color_at(
                        mode,
                        spec_buffer_ray(
                            x_size as int,
                            y_size as int,
                            k % (x_size as int),
                            y_size - 1 - (k / (x_size as int)),
                        ),
                        world@,
                    ),
                ),
        decreases j,
    {
        j = j - 1;
        let row: usize = y_size - 1 - j;
        let mut i: usize = 0;
        proof {
            assert(row * x_size + x_size == (y_size - j) * x_size) by (nonlinear_arith)
                requires
                    row == y_size - 1 - j,
            ;
            assert((y_size - j) * x_size <= y_size * x_size) by (nonlinear_arith)
                requires
                    j <= y_size,
                    0 <= x_size,
            ;
        }
        while i < x_size
            invariant
                i <= x_size,
                j < y_size,
                row == y_size - 1 - j,
                x_size * y_size <= usize::MAX,
                world.wf(),
                camera == spec_camera(),
                row * x_size + x_size == (y_size - j) * x_size,
                (y_size - j) * x_size <= y_size * x_size,
                buffer@.len() == row * x_size + i,
                forall|k: int| 0 <= k < buffer@.len() ==> #[trigger] buffer@[k] <= 16777215,
                mode == ColorMode::Scatter ==> forall|k: int|
                    0 <= k < buffer@.len() ==> shaded_pixel(#[trigger] buffer@[k]),
                mode != ColorMode::Scatter ==> forall|k: int|
                    0 <= k < buffer@.len() ==> #[trigger] buffer@[k] == spec_rgb(
                        spec_color_at(
                            mode,
                            spec_buffer_ray(
                                x_size as int,
                                y_size as int,
                                k % (x_size as int),
                                y_size - 1 - (k / (x_size as int)),
                            ),
                            world@,
                        ),
                    ),
            decreases x_size - i,
        {
            let u = screen_frac(i, x_size);
            let v = screen_frac(j, y_size);
            let ray = camera.get_ray(u, v);
            let color = color_at(mode, &ray, world, rng);
            let rgb = to_u32_rgb(&color);
            proof {
                vstd::arithmetic::div_mod::lemma_fundamental_div_mod_converse(
                    row as int * x_size as int + i as int, x_size as int, row as int, i as int);
                if mode == ColorMode::Scatter {
                    assert(color01(color) && rgb == spec_rgb(color));
                    assert(shaded_pixel(rgb));
                }
            }
            buffer.push(rgb);
            i = i + 1;
        }
    }
    proof {
        assert(y_size as int * x_size as int == x_size as int * y_size as int)
            by (nonlinear_arith);
    }
    buffer
}

/// Multi-sample rendering: per pixel, `alias_num` rays with independently
/// jittered viewport coordinates are averaged, gamma-corrected and packed.
pub fn create_ray_buffer_antialias(
    x_size: usize,
    y_size: usize,
    world: &Vec<Sphere>,
    color_mode: ColorMode,
    alias_num: u32,
    rng: &mut rand::rngs::StdRng,
) -> (buffer: Vec<u32>)
    requires
        world.wf(),
        x_size * y_size <= usize::MAX,
        1 <= alias_num <= 65536,
    ensures
        buffer@.len() == x_size * y_size,
        forall|k: int|
            0 <= k < buffer@.len() ==> #[trigger] buffer@[k] <= 16777215 && sampled_pixel(
                buffer@[k],
            ),
{
    let camera = Camera::new(
        Vec3::new(-33554432, -16777216, -16777216),
        Vec3::new(67108864, 0, 0),
        Vec3::new(0, 33554432, 0),
        Vec3::new(0, 0, 0),
    );
    let mut buffer: Vec<u32> = Vec::new();
    let mut j: usize = y_size;
    while j > 0
        invariant
            j <= y_size,
            x_size * y_size <= usize::MAX,
            world.wf(),
            camera == spec_camera(),
            1 <= alias_num <= 65536,
            buffer@.len() == (y_size - j) * x_size,
            forall|k: int|
                0 <= k < buffer@.len() ==> #[trigger] buffer@[k] <= 16777215 && sampled_pixel(
                    buffer@[k],
                ),
        decreases j,
    {
        j = j - 1;
        let mut i: usize = 0;
        proof {
            assert((y_size - 1 - j) * x_size + x_size == (y_size - j) * x_size)
                by (nonlinear_arith);
            assert((y_size - j) * x_size <= y_size * x_size) by (nonlinear_arith)
                requires
                    j <= y_size,
                    0 <= x_size,
            ;
        }
        while i < x_size
            invariant
                i <= x_size,
                j < y_size,
                x_size * y_size <= usize::MAX,
                world.wf(),
                camera == spec_camera(),
                1 <= alias_num <= 65536,
                (y_size - 1 - j) * x_size + x_size == (y_size - j) * x_size,
                (y_size - j) * x_size <= y_size * x_size,
                buffer@.len() == (y_size - 1 - j) * x_size + i,
                forall|k: int|
                    0 <= k < buffer@.len() ==> #[trigger] buffer@[k] <= 16777215 && sampled_pixel(
                        buffer@[k],
                    ),
            decreases x_size - i,
        {
            let mut color = Vec3::new(0, 0, 0);
            let mut s: u32 = 0;
            while s < alias_num
                invariant
                    s <= alias_num,
                    world.wf(),
                    camera == spec_camera(),
                    i < x_size,
                    j < y_size,
                    -64 * (s as int) <= color.x <= (SCALE + 64) * (s as int),
                    -64 * (s as int) <= color.y <= (SCALE + 64) * (s as int),
                    -64 * (s as int) <= color.z <= (SCALE + 64) * (s as int),
                    1 <= alias_num <= 65536,
                decreases alias_num - s,
            {
                let rand_u = next_unit_fraction(rng);
                let rand_v = next_unit_fraction(rng);
                let u = jittered_frac(i, x_size, rand_u);
                let v = jittered_frac(j, y_size, rand_v);
                let ray = camera.get_ray(u, v);
                let color_sample = color_at(color_mode, &ray, world, rng);
                proof {
                    assert((SCALE + 64) * (s as int) + (SCALE + 64) <= (SCALE + 64) * (s as int
                        + 1)) by (nonlinear_arith);
                    assert(-64 * (s as int) - 64 >= -64 * (s as int + 1)) by (nonlinear_arith);
                    assert((SCALE + 64) * (s as int + 1) <= (SCALE + 64) * 65536)
                        by (nonlinear_arith)
                        requires
                            s as int + 1 <= 65536,
                    ;
                }
                color = color.add(color_sample);
                s = s + 1;
            }
            proof {
                assert((SCALE + 64) * (alias_num as int) <= (SCALE + 64) * 65536)
                    by (nonlinear_arith)
                    requires
                        alias_num as int <= 65536,
                ;
            }
            let averaged = color.div_scale((alias_num as i128) * SCALE);
            proof {
                let n = alias_num as int;
                let ns = n * (SCALE as int);
                assert(-((SCALE as int + 64) * n) <= -64 * n) by (nonlinear_arith)
                    requires
                        n >= 0,
                ;
                assert(color.x * (SCALE as int) <= ((SCALE as int + 64) * n) * (SCALE as int)
                    && -(((SCALE as int + 64) * n) * (SCALE as int)) <= color.x * (SCALE as int)
                    && ((SCALE as int + 64) * n) * (SCALE as int) == (SCALE as int + 64) * ns)
                    by (nonlinear_arith)
                    requires
                        -((SCALE as int + 64) * n) <= color.x <= (SCALE as int + 64) * n,
                        ns == n * (SCALE as int),
                ;
                assert(color.y * (SCALE as int) <= ((SCALE as int + 64) * n) * (SCALE as int)
                    && -(((SCALE as int + 64) * n) * (SCALE as int)) <= color.y * (SCALE as int))
                    by (nonlinear_arith)
                    requires
                        -((SCALE as int + 64) * n) <= color.y <= (SCALE as int + 64) * n,
                ;
                assert(color.z * (SCALE as int) <= ((SCALE as int + 64) * n) * (SCALE as int)
                    && -(((SCALE as int + 64) * n) * (SCALE as int)) <= color.z * (SCALE as int))
                    by (nonlinear_arith)
                    requires
                        -((SCALE as int + 64) * n) <= color.z <= (SCALE as int + 64) * n,
                ;
                assert(ns > 0) by (nonlinear_arith)
                    requires
                        n >= 1,
                        ns == n * (SCALE as int),
                ;
                lemma_div_trunc_mag(color.x * (SCALE as int), (SCALE as int + 64) * ns, ns);
                lemma_div_trunc_mag(color.y * (SCALE as int), (SCALE as int + 64) * ns, ns);
                lemma_div_trunc_mag(color.z * (SCALE as int), (SCALE as int + 64) * ns, ns);
                vstd::arithmetic::div_mod::lemma_div_by_multiple(SCALE as int + 64, ns);
            }
            let corrected = gamma_2_correct(&averaged);
            let rgb = to_u32_rgb(&corrected);
            proof {
                assert(bounded(averaged, SCALE as int + 64));
                assert(rgb == spec_gamma_rgb(averaged));
                assert(sampled_pixel(rgb));
            }
            buffer.push(rgb);
            i = i + 1;
        }
    }
    proof {
        assert(y_size as int * x_size as int == x_size as int * y_size as int)
            by (nonlinear_arith);
    }
    buffer
}

/// A jittered screen fraction: `(index + rand) / size` with `rand` in
/// `[0, 1)`, still inside the unit interval.
fn jittered_frac(index: usize, size: usize, rand: i128) -> (r: i128)
    requires
        index < size,
        0 <= rand < SCALE,
    ensures
        r == (index as int * (SCALE as int) + rand) / (size as int),
        0 <= r < SCALE,
{
    let num: u128 = (index as u128) * 16777216u128 + (rand as u128);
    proof {
        assert(index as int * (SCALE as int) + rand <= size as int * (SCALE as int) - 1)
            by (nonlinear_arith)
            requires
                index < size,
                0 <= rand < SCALE as int,
        ;
        vstd::arithmetic::div_mod::lemma_div_pos_is_pos(
            index as int * (SCALE as int) + rand as int, size as int);
        vstd::arithmetic::div_mod::lemma_div_is_ordered(
            index as int * (SCALE as int) + rand as int, size as int * (SCALE as int) - 1,
            size as int);
        vstd::arithmetic::div_mod::lemma_fundamental_div_mod_converse(
            size as int * (SCALE as int) - 1, size as int, SCALE as int - 1, size as int - 1);
    }
    (num / (size as u128)) as i128
}

/// The demo scene: a diffuse sphere over a diffuse ground sphere, flanked
/// by two metal spheres.
pub fn create_world() -> (world: Vec<Sphere>)
    ensures
        world@.len() == 4,
        forall|i: int| 0 <= i < world@.len() ==> wf_sphere(#[trigger] world@[i]),
        world@[0] == (Sphere {
            center: Vec3 { x: 0i128, y: 0i128, z: -16777216i128 },
            radius: 8388608i128,
            material: Material::Lambertian(
                Lambertian { albedo: Vec3 { x: 13421772i128, y: 5033164i128, z: 5033164i128 } },
            ),
        }),
        world@[1] == (Sphere {
            center: Vec3 { x: 0i128, y: -1686110208i128, z: -16777216i128 },
            radius: 1677721600i128,
            material: Material::Lambertian(
                Lambertian { albedo: Vec3 { x: 8388608i128, y: 8388608i128, z: 8388608i128 } },
            ),
        }),
        world@[2] == (Sphere {
            center: Vec3 { x: 16777216i128, y: 0i128, z: -16777216i128 },
            radius: 8388608i128,
            material: Material::Metal(
                Metal {
                    albedo: Vec3 { x: 13421772i128, y: 13421772i128, z: 13421772i128 },
                    fuzz: 0i128,
                },
            ),
        }),
        world@[3] == (Sphere {
            center: Vec3 { x: -16777216i128, y: 0i128, z: -16777216i128 },
            radius: 8388608i128,
            material: Material::Metal(
                Metal {
                    albedo: Vec3 { x: 13421772i128, y: 10066329i128, z: 3355443i128 },
                    fuzz: 0i128,
                },
            ),
        }),
{
    let center = Vec3::new(0, 0, -16777216);
    let radius: i128 = 8388608;
    let lambertian_material = Lambertian::new(Vec3::new(13421772, 5033164, 5033164));
    let lambertian_material2 = Lambertian::new(Vec3::new(8388608, 8388608, 8388608));
    let metal_material = Metal::new(Vec3::new(13421772, 13421772, 13421772), 0);
    let metal_material2 = Metal::new(Vec3::new(13421772, 10066329, 3355443), 0);

    let sphere = Sphere::new(center, radius, Material::Lambertian(lambertian_material));
    let sphere2 = Sphere::new(
        Vec3::new(0, -1686110208, -16777216),
        1677721600,
        Material::Lambertian(lambertian_material2),
    );
    let sphere3 = Sphere::new(
        Vec3::new(16777216, 0, -16777216),
        8388608,
        Material::Metal(metal_material),
    );
    let sphere4 = Sphere::new(
        Vec3::new(-16777216, 0, -16777216),
        8388608,
        Material::Metal(metal_material2),
    );

    let mut world: Vec<Sphere> = Vec::new();
    world.push(sphere);
    world.push(sphere2);
    world.push(sphere3);
    world.push(sphere4);
    world
}

} // verus!
