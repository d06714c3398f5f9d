//! The color estimators: the background gradient, the early single-sphere
//! shaders, and the recursive light-transport estimator with its bounce
//! budget.

use vstd::prelude::*;

use crate::fixed::SCALE;
use crate::fixed::fxdiv;
use crate::fixed::fxmul;
use crate::fixed::fxsqrt;
use crate::fixed::lemma_fxmul_le_one;
use crate::fixed::lemma_fxmul_mag_q;
use crate::fixed::lemma_fxmul_sq_nonneg;
use crate::fixed::lemma_sqrt_floor;
use crate::fixed::lemma_sqrt_floor_square;
use crate::fixed::lemma_sqrt_floor_monotone;
use crate::fixed::lemma_sqrt_le;
use crate::material::color01;
use crate::ray::DIR_LIM;
use crate::ray::Ray;
use crate::ray::T_MAX;
use crate::ray::ray_in_bounds;
use crate::ray::wf_ray;
use crate::renderable::Renderable;
use crate::renderable::spec_scene_hit;
use crate::renderable::Sphere;
use crate::rgb::clamp01;
use crate::vector::Vec3;
use crate::vector::bounded;
use crate::vector::spec_dot;

verus! {

/// Half a unit, the lerp factor scale.
pub const HALF: i128 = 8388608;

/// The intersection epsilon the estimator starts its window at (0.001),
/// keeping a bounce from immediately re-hitting its own surface.
pub const T_EPS: i128 = 16777;

/// The fixed bounce budget.
pub const MAX_BOUNCES: i32 = 50;

/// Pure black: full absorption.
pub open spec fn spec_black() -> Vec3 {
    Vec3 { x: 0, y: 0, z: 0 }
}

/// The background gradient: white to sky-blue, lerped on the normalized
/// direction's vertical component (clamped into the unit interval); black
/// for a direction too short to normalize.
pub open spec fn spec_bg_color(r: Ray) -> Vec3 {
    let dd = spec_dot(r.direction, r.direction);
    if dd <= 0 {
        spec_black()
    } else {
        let len = fxsqrt(dd);
        let uy = fxdiv(r.direction.y as int, len);
        let t = clamp01(fxmul(HALF as int, uy + SCALE as int));
        Vec3 {
            x: (fxmul(SCALE as int, (SCALE - t) as int) + fxmul(HALF as int, t)) as i128,
            y: (fxmul(SCALE as int, (SCALE - t) as int) + fxmul(11744051, t)) as i128,
            z: (fxmul(SCALE as int, (SCALE - t) as int) + fxmul(SCALE as int, t)) as i128,
        }
    }
}

/// The background gradient of a ray; the scene plays no part in it.
pub fn get_bg_color(ray: &Ray, _world: &Vec<Sphere>) -> (r: Vec3)
    requires
        bounded(ray.direction, DIR_LIM as int),
    ensures
        r == spec_bg_color(*ray),
        color01(r),
{
    let white = Vec3::new(SCALE, SCALE, SCALE);
    let blue = Vec3::new(HALF, 11744051, SCALE);
    let d = ray.direction();
    proof {
        lemma_fxmul_mag_q(d.x as int, d.x as int, DIR_LIM as int, DIR_LIM as int, 68719476736);
        lemma_fxmul_mag_q(d.y as int, d.y as int, DIR_LIM as int, DIR_LIM as int, 68719476736);
        lemma_fxmul_mag_q(d.z as int, d.z as int, DIR_LIM as int, DIR_LIM as int, 68719476736);
        lemma_fxmul_sq_nonneg(d.x as int);
        lemma_fxmul_sq_nonneg(d.y as int);
        lemma_fxmul_sq_nonneg(d.z as int);
    }
    let ls = d.length_squared();
    if ls <= 0 {
        return Vec3::new(0, 0, 0);
    }
    proof {
        lemma_sqrt_le(ls as int * SCALE as int, 2147483648);
        lemma_sqrt_floor_monotone(SCALE as int, ls as int * SCALE as int);
        lemma_sqrt_floor_square(4096);
    }
    let len = crate::fixed::fx_sqrt(ls);
    let uy = crate::fixed::fx_div(d.y(), len);
    proof {
        crate::fixed::lemma_div_trunc_mag(d.y as int * SCALE as int, 18014398509481984,
            len as int);
    }
    let t_raw = crate::fixed::fx_mul(HALF, uy + SCALE);
    let t: i128 = if t_raw < 0 {
        0
    } else if t_raw > SCALE {
        SCALE
    } else {
        t_raw
    };
    proof {
        lemma_fxmul_le_one(SCALE as int, (SCALE - t) as int);
        lemma_fxmul_le_one(SCALE as int, t as int);
        lemma_fxmul_le_one(HALF as int, t as int);
        lemma_fxmul_le_one(11744051, t as int);
    }
    let base = white.scale(SCALE - t);
    let tint = blue.scale(t);
    base.add(tint)
}

/// The chapter-style silhouette discriminant of a standalone sphere test:
/// positive exactly when the ray's line crosses the sphere.
pub open spec fn spec_silhouette_disc(center: Vec3, radius: int, r: Ray) -> int {
    let acx = r.origin.x - center.x;
    let acy = r.origin.y - center.y;
    let acz = r.origin.z - center.z;
    let a = spec_dot(r.direction, r.direction);
    let b = 2 * (fxmul(r.direction.x as int, acx) + fxmul(r.direction.y as int, acy) + fxmul(
        r.direction.z as int,
        acz,
    ));
    let c = fxmul(acx, acx) + fxmul(acy, acy) + fxmul(acz, acz) - fxmul(radius, radius);
    fxmul(b, b) - fxmul(4 * a, c)
}

/// Whether the ray's line crosses the sphere at all: the discriminant test
/// alone, ignoring where along the line.
pub fn hit_sphere(center: &Vec3, radius: i128, ray: &Ray) -> (r: bool)
    requires
        wf_ray(*ray),
        bounded(*center, crate::renderable::CEN_LIM as int),
        0 < radius <= crate::renderable::CEN_LIM,
    ensures
        r == (spec_silhouette_disc(*center, radius as int, *ray) > 0),
{
    let d = ray.direction();
    let ac = ray.origin().sub(*center);
    proof {
        lemma_fxmul_mag_q(d.x as int, d.x as int, 1073741824, 1073741824, 68719476736);
        lemma_fxmul_mag_q(d.y as int, d.y as int, 1073741824, 1073741824, 68719476736);
        lemma_fxmul_mag_q(d.z as int, d.z as int, 1073741824, 1073741824, 68719476736);
        lemma_fxmul_mag_q(d.x as int, ac.x as int, 1073741824, 34359738368, 2199023255552);
        lemma_fxmul_mag_q(d.y as int, ac.y as int, 1073741824, 34359738368, 2199023255552);
        lemma_fxmul_mag_q(d.z as int, ac.z as int, 1073741824, 34359738368, 2199023255552);
        lemma_fxmul_mag_q(ac.x as int, ac.x as int, 34359738368, 34359738368, 70368744177664);
        lemma_fxmul_mag_q(ac.y as int, ac.y as int, 34359738368, 34359738368, 70368744177664);
        lemma_fxmul_mag_q(ac.z as int, ac.z as int, 34359738368, 34359738368, 70368744177664);
        lemma_fxmul_mag_q(radius as int, radius as int, 4294967296, 4294967296, 1099511627776);
    }
    let a = d.dot(d);
    let b = 2 * d.dot(ac);
    let c = ac.dot(ac) - crate::fixed::fx_mul(radius, radius);
    proof {
        lemma_fxmul_mag_q(b as int, b as int, 17592186044416, 17592186044416,
            18446744073709551616);
        lemma_fxmul_mag_q(4 * a as int, c as int, 1099511627776, 281474976710656,
            18446744073709551616);
    }
    let disc = crate::fixed::fx_mul(b, b) - crate::fixed::fx_mul(4 * a, c);
    disc > 0
}

/// The parameter of the nearer line-sphere crossing, or -1.0 when the line
/// misses; the early chapter shader's helper.
pub fn hit_sphere_5(center: &Vec3, radius: i128, ray: &Ray) -> (r: i128)
    requires
        wf_ray(*ray),
        bounded(*center, crate::renderable::CEN_LIM as int),
        0 < radius <= crate::renderable::CEN_LIM,
        spec_dot(ray.direction, ray.direction) > 0,
    ensures
        r == ({
            let disc = spec_silhouette_disc(*center, radius as int, *ray);
            if disc < 0 {
                -(SCALE as int)
            } else {
                fxdiv(
                    -(2 * (fxmul(ray.direction.x as int, ray.origin.x - center.x) + fxmul(
                        ray.direction.y as int,
                        ray.origin.y - center.y,
                    ) + fxmul(ray.direction.z as int, ray.origin.z - center.z))) - fxsqrt(disc),
                    2 * spec_dot(ray.direction, ray.direction),
                )
            }
        }),
{
    let d = ray.direction();
    let ac = ray.origin().sub(*center);
    proof {
        lemma_fxmul_mag_q(d.x as int, d.x as int, 1073741824, 1073741824, 68719476736);
        lemma_fxmul_mag_q(d.y as int, d.y as int, 1073741824, 1073741824, 68719476736);
        lemma_fxmul_mag_q(d.z as int, d.z as int, 1073741824, 1073741824, 68719476736);
        lemma_fxmul_mag_q(d.x as int, ac.x as int, 1073741824, 34359738368, 2199023255552);
        lemma_fxmul_mag_q(d.y as int, ac.y as int, 1073741824, 34359738368, 2199023255552);
        lemma_fxmul_mag_q(d.z as int, ac.z as int, 1073741824, 34359738368, 2199023255552);
        lemma_fxmul_mag_q(ac.x as int, ac.x as int, 34359738368, 34359738368, 70368744177664);
        lemma_fxmul_mag_q(ac.y as int, ac.y as int, 34359738368, 34359738368, 70368744177664);
        lemma_fxmul_mag_q(ac.z as int, ac.z as int, 34359738368, 34359738368, 70368744177664);
        lemma_fxmul_mag_q(radius as int, radius as int, 4294967296, 4294967296, 1099511627776);
    }
    let a = d.dot(d);
    let b = 2 * d.dot(ac);
    let c = ac.dot(ac) - crate::fixed::fx_mul(radius, radius);
    proof {
        lemma_fxmul_mag_q(b as int, b as int, 17592186044416, 17592186044416,
            18446744073709551616);
        lemma_fxmul_mag_q(4 * a as int, c as int, 1099511627776, 281474976710656,
            18446744073709551616);
    }
    let disc = crate::fixed::fx_mul(b, b) - crate::fixed::fx_mul(4 * a, c);
    if disc < 0 {
        -SCALE
    } else {
        proof {
            lemma_sqrt_le(disc as int * (SCALE as int), 35184372088832);
            lemma_sqrt_floor(disc as int * (SCALE as int));
        }
        let sq = crate::fixed::fx_sqrt(disc);
        crate::fixed::fx_div(-b - sq, 2 * a)
    }
}

/// The flat silhouette shader: solid red where the line crosses the demo
/// sphere, the background elsewhere.
pub open spec fn spec_color_silhouette(r: Ray) -> Vec3 {
    let center = Vec3 { x: 0i128, y: 0i128, z: -16777216i128 };
    if spec_silhouette_disc(center, HALF as int, r) > 0 {
        Vec3 { x: SCALE as i128, y: 0, z: 0 }
    } else {
        spec_bg_color(r)
    }
}

pub fn get_color_chapter_4(ray: &Ray, world: &Vec<Sphere>) -> (r: Vec3)
    requires
        wf_ray(*ray),
    ensures
        r == spec_color_silhouette(*ray),
{
    let center = Vec3::new(0, 0, -SCALE);
    let red = Vec3::new(SCALE, 0, 0);
    if hit_sphere(&center, HALF, ray) {
        red
    } else {
        get_bg_color(ray, world)
    }
}

/// The normal-map shader: the nearest hit's normal shifted from `[-1, 1]`
/// into `[0, 1]` per axis, the background where nothing is hit.
pub open spec fn spec_color_normal(r: Ray, world: Seq<Sphere>) -> Vec3 {
    match spec_scene_hit(world, r, 0, T_MAX as int) {
        Some(h) => Vec3 {
            x: fxmul(h.normal.x + SCALE as int, HALF as int) as i128,
            y: fxmul(h.normal.y + SCALE as int, HALF as int) as i128,
            z: fxmul(h.normal.z + SCALE as int, HALF as int) as i128,
        },
        None => spec_bg_color(r),
    }
}

pub fn get_color_chapter_5(ray: &Ray, world: &Vec<Sphere>) -> (r: Vec3)
    requires
        wf_ray(*ray),
        world.wf(),
    ensures
        r == spec_color_normal(*ray, world@),
        -64 <= r.x <= SCALE + 64,
        -64 <= r.y <= SCALE + 64,
        -64 <= r.z <= SCALE + 64,
{
    match world.hit(ray, 0, T_MAX) {
        Some(hit_record) => {
            let surface_normal = hit_record.normal;
            proof {
                lemma_fxmul_mag_q(surface_normal.x as int + SCALE as int, HALF as int, 33554560,
                    HALF as int, 16777280);
                lemma_fxmul_mag_q(surface_normal.y as int + SCALE as int, HALF as int, 33554560,
                    HALF as int, 16777280);
                lemma_fxmul_mag_q(surface_normal.z as int + SCALE as int, HALF as int, 33554560,
                    HALF as int, 16777280);
            }
            let shifted = Vec3::new(
                surface_normal.x() + SCALE,
                surface_normal.y() + SCALE,
                surface_normal.z() + SCALE,
            );
            shifted.scale(HALF)
        },
        None => get_bg_color(ray, world),
    }
}

/// The recursive estimator: intersect past the epsilon, scatter, attenuate
/// the recursion, and stop black at the bounce budget; where nothing is hit
/// the background shines through.
pub fn get_color_chapter_7_tail(
    ray: &Ray,
    world: &Vec<Sphere>,
    num_bounces: i32,
    rng: &mut rand::rngs::StdRng,
) -> (r: Vec3)
    requires
        wf_ray(*ray),
        world.wf(),
        0 <= num_bounces <= MAX_BOUNCES,
    ensures
        color01(r),
        spec_scene_hit(world@, *ray, T_EPS as int, T_MAX as int) is None ==> r == spec_bg_color(
            *ray,
        ),
        spec_scene_hit(world@, *ray, T_EPS as int, T_MAX as int) is Some && num_bounces
            == MAX_BOUNCES ==> r == spec_black(),
    decreases MAX_BOUNCES - num_bounces,
{
    match world.hit(ray, T_EPS, T_MAX) {
        Some(hit_record) => {
            match hit_record.material.scatter(ray, &hit_record, rng) {
                Some(scatter_record) => {
                    // A scattered ray outside the representation's bounds
                    // counts as absorbed, like an exhausted budget; scenes
                    // within the stated limits never produce one.
                    if num_bounces < MAX_BOUNCES && ray_in_bounds(&scatter_record.scattered) {
                        let rec = get_color_chapter_7_tail(
                            &scatter_record.scattered,
                            world,
                            num_bounces + 1,
                            rng,
                        );
                        let attenuation = scatter_record.attenuation;
                        proof {
                            lemma_fxmul_le_one(attenuation.x as int, rec.x as int);
                            lemma_fxmul_le_one(attenuation.y as int, rec.y as int);
                            lemma_fxmul_le_one(attenuation.z as int, rec.z as int);
                        }
                        attenuation.mul(rec)
                    } else {
                        Vec3::new(0, 0, 0)
                    }
                },
                None => Vec3::new(0, 0, 0),
            }
        },
        None => get_bg_color(ray, world),
    }
}

/// One full estimate: the recursion started with a fresh bounce budget.
pub fn get_color_chapter_7(ray: &Ray, world: &Vec<Sphere>, rng: &mut rand::rngs::StdRng) -> (r:
    Vec3)
    requires
        wf_ray(*ray),
        world.wf(),
    ensures
        color01(r),
        spec_scene_hit(world@, *ray, T_EPS as int, T_MAX as int) is None ==> r == spec_bg_color(
            *ray,
        ),
{
    get_color_chapter_7_tail(ray, world, 0, rng)
}

/// Which shader a buffer is rendered with.
#[derive(Clone, Copy, Debug, PartialEq, Eq, Structural)]
pub enum ColorMode {
    /// The plain background gradient.
    Background,
    /// The flat red silhouette of the demo sphere.
    Silhouette,
    /// The normal-map shading of the nearest hit.
    NormalShade,
    /// The full recursive estimator.
    Scatter,
}

/// What the three deterministic shaders return; the stochastic one is
/// constrained only by its own contract.
pub open spec fn spec_color_at(mode: ColorMode, r: Ray, world: Seq<Sphere>) -> Vec3 {
    match mode {
        ColorMode::Background => spec_bg_color(r),
        ColorMode::Silhouette => spec_color_silhouette(r),
        ColorMode::NormalShade => spec_color_normal(r, world),
        ColorMode::Scatter => spec_black(),
    }
}

/// Shader dispatch for the buffer producers.
pub fn color_at(
    mode: ColorMode,
    ray: &Ray,
    world: &Vec<Sphere>,
    rng: &mut rand::rngs::StdRng,
) -> (r: Vec3)
    requires
        wf_ray(*ray),
        world.wf(),
    ensures
        mode != ColorMode::Scatter ==> r == spec_color_at(mode, *ray, world@),
        mode == ColorMode::Scatter ==> color01(r),
        -64 <= r.x <= SCALE + 64,
        -64 <= r.y <= SCALE + 64,
        -64 <= r.z <= SCALE + 64,
{
    match mode {
        ColorMode::Background => get_bg_color(ray, world),
        ColorMode::Silhouette => get_color_chapter_4(ray, world),
        ColorMode::NormalShade => get_color_chapter_5(ray, world),
        ColorMode::Scatter => get_color_chapter_7(ray, world, rng),
    }
}

} // verus!
