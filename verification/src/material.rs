//! Material scattering: the diffuse (Lambertian) and specular-with-fuzz
//! (Metal) materials behind one dispatching sum type.
//!
//! The direction-dependent decisions are verified functions of the sampled
//! offset, so their contracts are exact; the sampling itself draws from the
//! explicit random source.

use vstd::prelude::*;

use crate::fixed::SCALE;
use crate::fixed::fxmul;
use crate::fixed::lemma_fxmul_mag_q;
use crate::ray::DIR_LIM;
use crate::ray::POS_LIM;
use crate::ray::Ray;
use crate::ray::wf_ray;
use crate::renderable::HitRecord;
use crate::renderable::NORM_LIM;
use crate::vector::Vec3;
use crate::vector::bounded;
use crate::vector::spec_dot;

verus! {

/// Magnitude bound for scattered ray directions (2^37 raw units); both
/// materials stay well inside it.
pub const SCAT_LIM: i128 = 137438953472;

/// An attenuation color and the scattered outgoing ray.
#[derive(Clone, Copy, Debug, PartialEq, Eq, Structural)]
pub struct ScatterRecord {
    pub attenuation: Vec3,
    pub scattered: Ray,
}

/// A color with every channel inside the unit interval.
pub open spec fn color01(v: Vec3) -> bool {
    &&& 0 <= v.x <= SCALE
    &&& 0 <= v.y <= SCALE
    &&& 0 <= v.z <= SCALE
}

/// The diffuse material: a fixed albedo.
#[derive(Clone, Copy, Debug, PartialEq, Eq, Structural)]
pub struct Lambertian {
    pub albedo: Vec3,
}

/// The specular material: an albedo and a fuzz radius in `[0, 1]`.
#[derive(Clone, Copy, Debug, PartialEq, Eq, Structural)]
pub struct Metal {
    pub albedo: Vec3,
    pub fuzz: i128,
}

/// Every material the renderer dispatches over.
#[derive(Clone, Copy, Debug, PartialEq, Eq, Structural)]
pub enum Material {
    Lambertian(Lambertian),
    Metal(Metal),
}

/// A material the integrator can do arithmetic with: unit-interval albedo
/// and, for metal, unit-interval fuzz.
pub open spec fn wf_material(m: Material) -> bool {
    match m {
        Material::Lambertian(l) => color01(l.albedo),
        Material::Metal(mt) => color01(mt.albedo) && 0 <= mt.fuzz <= SCALE,
    }
}

/// The attenuation any scatter of `m` reports.
pub open spec fn albedo_of(m: Material) -> Vec3 {
    match m {
        Material::Lambertian(l) => l.albedo,
        Material::Metal(mt) => mt.albedo,
    }
}

/// A point of the closed unit ball, drawn by rejection sampling: three
/// fresh fractions mapped to `[-1, 1)` per axis, accepted once the squared
/// length is at most one.  A bounded number of attempts is made; the center
/// stands in for the vanishingly unlikely case that all are rejected.
pub fn random_in_unit_sphere(rng: &mut rand::rngs::StdRng) -> (v: Vec3)
    ensures
        bounded(v, SCALE as int),
        spec_dot(v, v) <= SCALE,
{
    let mut attempt: u32 = 0;
    while attempt < 64
        decreases 64 - attempt,
    {
        let i = crate::rng::next_unit_fraction(rng);
        let j = crate::rng::next_unit_fraction(rng);
        let k = crate::rng::next_unit_fraction(rng);
        let v = Vec3::new(2 * i - SCALE, 2 * j - SCALE, 2 * k - SCALE);
        let ls = v.length_squared();
        if ls <= SCALE {
            return v;
        }
        attempt = attempt + 1;
    }
    let center = Vec3::new(0, 0, 0);
    proof {
        vstd::arithmetic::div_mod::lemma_div_of0(SCALE as int);
    }
    center
}

/// What diffuse scattering produces: the outgoing direction is the surface
/// normal displaced by some point of the closed unit ball.
pub open spec fn diffuse_scatter_ok(normal: Vec3, sr: ScatterRecord) -> bool {
    exists|offset: Vec3|
        {
            &&& bounded(offset, SCALE as int)
            &&& #[trigger] spec_dot(offset, offset) <= SCALE
            &&& sr.scattered.direction.x == normal.x + offset.x
            &&& sr.scattered.direction.y == normal.y + offset.y
            &&& sr.scattered.direction.z == normal.z + offset.z
        }
}

impl Lambertian {
    pub fn new(albedo: Vec3) -> (m: Self)
        ensures
            m.albedo == albedo,
    {
        Self { albedo }
    }

    /// Diffuse scattering toward `position + normal + offset`; always
    /// scatters, and the outgoing direction is exactly `normal + offset`.
    pub fn scatter_with(&self, hit: &HitRecord, offset: Vec3) -> (sr: ScatterRecord)
        requires
            bounded(hit.position, POS_LIM as int),
            bounded(hit.normal, NORM_LIM as int),
            bounded(offset, SCALE as int),
        ensures
            sr.attenuation == self.albedo,
            sr.scattered.origin == hit.position,
            sr.scattered.direction.x == hit.normal.x + offset.x,
            sr.scattered.direction.y == hit.normal.y + offset.y,
            sr.scattered.direction.z == hit.normal.z + offset.z,
            bounded(sr.scattered.direction, SCAT_LIM as int),
    {
        let target = hit.position.add(hit.normal).add(offset);
        let direction = target.sub(hit.position);
        let scattered = Ray::new(hit.position, direction);
        ScatterRecord { attenuation: self.albedo, scattered }
    }

    /// Diffuse scattering with a freshly drawn offset; never absent.
    pub fn scatter(&self, _ray: &Ray, hit: &HitRecord, rng: &mut rand::rngs::StdRng) -> (r: Option<
        ScatterRecord,
    >)
        requires
            bounded(hit.position, POS_LIM as int),
            bounded(hit.normal, NORM_LIM as int),
        ensures
            r is Some,
            r matches Some(sr) ==> {
                &&& sr.attenuation == self.albedo
                &&& sr.scattered.origin == hit.position
                &&& bounded(sr.scattered.direction, SCAT_LIM as int)
                &&& diffuse_scatter_ok(hit.normal, sr)
            },
    {
        let offset = random_in_unit_sphere(rng);
        let sr = self.scatter_with(hit, offset);
        proof {
            assert(spec_dot(offset, offset) <= SCALE);
        }
        Some(sr)
    }
}

/// The incoming direction mirrored about the normal:
/// `d - 2 (d . n) n`, componentwise in fixed point.
pub open spec fn spec_reflected(d: Vec3, n: Vec3) -> Vec3 {
    Vec3 {
        x: (d.x - fxmul(2 * spec_dot(d, n), n.x as int)) as i128,
        y: (d.y - fxmul(2 * spec_dot(d, n), n.y as int)) as i128,
        z: (d.z - fxmul(2 * spec_dot(d, n), n.z as int)) as i128,
    }
}

/// The reflection perturbed by `fuzz * offset`.
pub open spec fn spec_fuzzed(fuzz: int, d: Vec3, n: Vec3, offset: Vec3) -> Vec3 {
    let r = spec_reflected(d, n);
    Vec3 {
        x: (r.x + fxmul(offset.x as int, fuzz)) as i128,
        y: (r.y + fxmul(offset.y as int, fuzz)) as i128,
        z: (r.z + fxmul(offset.z as int, fuzz)) as i128,
    }
}

impl Metal {
    /// Builds a metal; the fuzz radius is clamped into `[0, 1]`.
    pub fn new(albedo: Vec3, fuzz: i128) -> (m: Self)
        ensures
            m.albedo == albedo,
            m.fuzz == if fuzz < 0 {
                0
            } else if fuzz > SCALE {
                SCALE as i128
            } else {
                fuzz
            },
    {
        let fuzz_val: i128 = if fuzz < 0 {
            0
        } else if fuzz > SCALE {
            SCALE
        } else {
            fuzz
        };
        Self { albedo, fuzz: fuzz_val }
    }

    /// Specular scattering for a given perturbation: reflect, fuzz, and
    /// scatter exactly when the result points to the normal's side.
    pub fn scatter_with(&self, ray: &Ray, hit: &HitRecord, offset: Vec3) -> (r: Option<
        ScatterRecord,
    >)
        requires
            wf_ray(*ray),
            bounded(hit.position, POS_LIM as int),
            bounded(hit.normal, NORM_LIM as int),
            bounded(offset, SCALE as int),
            0 <= self.fuzz <= SCALE,
        ensures
            r is Some <==> spec_dot(
                spec_fuzzed(self.fuzz as int, ray.direction, hit.normal, offset),
                hit.normal,
            ) > 0,
            r matches Some(sr) ==> {
                &&& sr.attenuation == self.albedo
                &&& sr.scattered.origin == hit.position
                &&& sr.scattered.direction == spec_fuzzed(
                    self.fuzz as int,
                    ray.direction,
                    hit.normal,
                    offset,
                )
                &&& bounded(sr.scattered.direction, SCAT_LIM as int)
            },
    {
        let d = ray.direction();
        let nd = d.dot(hit.normal);
        proof {
            lemma_fxmul_mag_q(d.x as int, hit.normal.x as int, DIR_LIM as int, 33554432,
                2147483648);
            lemma_fxmul_mag_q(d.y as int, hit.normal.y as int, DIR_LIM as int, 33554432,
                2147483648);
            lemma_fxmul_mag_q(d.z as int, hit.normal.z as int, DIR_LIM as int, 33554432,
                2147483648);
            lemma_fxmul_mag_q(2 * nd as int, hit.normal.x as int, 34359738368, 33554432,
                68719476736);
            lemma_fxmul_mag_q(2 * nd as int, hit.normal.y as int, 34359738368, 33554432,
                68719476736);
            lemma_fxmul_mag_q(2 * nd as int, hit.normal.z as int, 34359738368, 33554432,
                68719476736);
            lemma_fxmul_mag_q(offset.x as int, self.fuzz as int, SCALE as int, SCALE as int,
                SCALE as int);
            lemma_fxmul_mag_q(offset.y as int, self.fuzz as int, SCALE as int, SCALE as int,
                SCALE as int);
            lemma_fxmul_mag_q(offset.z as int, self.fuzz as int, SCALE as int, SCALE as int,
                SCALE as int);
        }
        let reflected = d.sub(hit.normal.scale(2 * nd));
        let fuzzed = reflected.add(offset.scale(self.fuzz));
        let nd2 = fuzzed.dot(hit.normal);
        if nd2 > 0 {
            let scattered = Ray::new(hit.position, fuzzed);
            Some(ScatterRecord { attenuation: self.albedo, scattered })
        } else {
            None
        }
    }

    /// Specular scattering with a freshly drawn perturbation; absent exactly
    /// when the fuzzed reflection points into the surface.  With zero fuzz
    /// the perturbation is multiplied away and the outcome is the plain
    /// mirror reflection, pinned here as a function of the arguments alone.
    pub fn scatter(&self, ray: &Ray, hit: &HitRecord, rng: &mut rand::rngs::StdRng) -> (r: Option<
        ScatterRecord,
    >)
        requires
            wf_ray(*ray),
            bounded(hit.position, POS_LIM as int),
            bounded(hit.normal, NORM_LIM as int),
            0 <= self.fuzz <= SCALE,
        ensures
            r matches Some(sr) ==> {
                &&& sr.attenuation == self.albedo
                &&& sr.scattered.origin == hit.position
                &&& spec_dot(sr.scattered.direction, hit.normal) > 0
                &&& bounded(sr.scattered.direction, SCAT_LIM as int)
                &&& self.fuzz == 0 ==> sr.scattered.direction == spec_reflected(
                    ray.direction,
                    hit.normal,
                )
            },
            self.fuzz == 0 ==> (r is Some <==> spec_dot(
                spec_reflected(ray.direction, hit.normal),
                hit.normal,
            ) > 0),
    {
        let offset = random_in_unit_sphere(rng);
        proof {
            if self.fuzz == 0 {
                lemma_fuzz_zero_is_reflection(ray.direction, hit.normal, offset);
            }
        }
        self.scatter_with(ray, hit, offset)
    }
}

/// With zero fuzz the perturbed reflection is the reflection itself,
/// whatever point the sampler drew.
proof fn lemma_fuzz_zero_is_reflection(d: Vec3, n: Vec3, offset: Vec3)
    ensures
        spec_fuzzed(0, d, n, offset) == spec_reflected(d, n),
{
    crate::fixed::lemma_fxmul_zero(offset.x as int);
    crate::fixed::lemma_fxmul_zero(offset.y as int);
    crate::fixed::lemma_fxmul_zero(offset.z as int);
}

impl Material {
    /// Dispatching scatter: what holds of the result holds whichever offset
    /// the random source produced.
    pub fn scatter(&self, ray: &Ray, hit: &HitRecord, rng: &mut rand::rngs::StdRng) -> (r: Option<
        ScatterRecord,
    >)
        requires
            wf_ray(*ray),
            bounded(hit.position, POS_LIM as int),
            bounded(hit.normal, NORM_LIM as int),
            wf_material(*self),
        ensures
            self matches Material::Lambertian(_) ==> r is Some,
            r matches Some(sr) ==> {
                &&& sr.attenuation == albedo_of(*self)
                &&& sr.scattered.origin == hit.position
                &&& bounded(sr.scattered.direction, SCAT_LIM as int)
                &&& self matches Material::Lambertian(_) ==> diffuse_scatter_ok(hit.normal, sr)
                &&& (self matches Material::Metal(m) && m.fuzz == 0)
                    ==> sr.scattered.direction == spec_reflected(ray.direction, hit.normal)
            },
            self matches Material::Metal(m) && m.fuzz == 0 ==> (r is Some <==> spec_dot(
                spec_reflected(ray.direction, hit.normal),
                hit.normal,
            ) > 0),
    {
        match self {
            Material::Lambertian(l) => l.scatter(ray, hit, rng),
            Material::Metal(m) => m.scatter(ray, hit, rng),
        }
    }
}

} // verus!
