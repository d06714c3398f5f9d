//! Hit records and the renderable capability: ray-geometry intersection for
//! the sphere primitive and for an ordered scene of spheres.
//!
//! The quadratic-root policy is the model's: reject a negative discriminant,
//! prefer the nearer root, accept a root only inside `[t_min, t_max]` (both
//! inclusive).  The scene scan tightens its upper bound to each hit found,
//! so the result is the globally nearest hit, which `lemma_scene_hit_nearest`
//! states and proves.

use vstd::prelude::*;

use crate::fixed::SCALE;
use crate::fixed::fx_div;
use crate::fixed::fx_mul;
use crate::fixed::fx_sqrt;
use crate::fixed::fxdiv;
use crate::fixed::fxmul;
use crate::fixed::fxsqrt;
use crate::fixed::lemma_div_trunc_mag;
use crate::fixed::lemma_div_trunc_monotone;
use crate::fixed::lemma_fxmul_mag_q;
use crate::fixed::lemma_fxmul_sq_nonneg;
use crate::fixed::lemma_sqrt_floor;
use crate::fixed::lemma_sqrt_le;
use crate::material::Material;
use crate::material::wf_material;
use crate::ray::POS_LIM;
use crate::ray::Ray;
use crate::ray::T_MAX;
use crate::ray::spec_point_at;
use crate::ray::wf_ray;
use crate::vector::Vec3;
use crate::vector::bounded;
use crate::vector::spec_dot;

verus! {

/// Magnitude bound for sphere centers and radii (2^32 raw units, 256.0).
pub const CEN_LIM: i128 = 4294967296;

/// Magnitude bound for unit surface normals: 1.0 plus the slack that the
/// truncated length estimate can leave (128 raw units).
pub const NORM_LIM: i128 = 16777344;

/// Shortest center distance at which a hit still gets a normal (1/16 of a
/// unit); a nearer degenerate point would divide by too small a length.
pub const LEN_GUARD: i128 = 1048576;

/// The result of a successful ray-geometry intersection.
#[derive(Clone, Copy, Debug, PartialEq, Eq, Structural)]
pub struct HitRecord {
    pub t: i128,
    pub position: Vec3,
    pub normal: Vec3,
    pub material: Material,
}

/// What every produced hit record satisfies.
pub open spec fn wf_hit_record(h: HitRecord) -> bool {
    &&& h.t >= 0
    &&& bounded(h.position, POS_LIM as int)
    &&& bounded(h.normal, NORM_LIM as int)
    &&& wf_material(h.material)
}

/// A sphere owning its material.
#[derive(Clone, Copy, Debug, PartialEq, Eq, Structural)]
pub struct Sphere {
    pub center: Vec3,
    pub radius: i128,
    pub material: Material,
}

/// A sphere the renderer can intersect: in-range center, positive in-range
/// radius, arithmetic-safe material.
pub open spec fn wf_sphere(s: Sphere) -> bool {
    &&& bounded(s.center, CEN_LIM as int)
    &&& 0 < s.radius <= CEN_LIM
    &&& wf_material(s.material)
}

/// `origin - center`, the quadratic's offset vector.
pub open spec fn sph_ac(s: Sphere, r: Ray) -> Vec3 {
    Vec3 {
        x: (r.origin.x - s.center.x) as i128,
        y: (r.origin.y - s.center.y) as i128,
        z: (r.origin.z - s.center.z) as i128,
    }
}

/// Quadratic coefficient `a = D . D`.
pub open spec fn sph_a(s: Sphere, r: Ray) -> int {
    spec_dot(r.direction, r.direction)
}

/// Quadratic coefficient `b = 2 D . (O - C)`.
pub open spec fn sph_b(s: Sphere, r: Ray) -> int {
    2 * spec_dot(r.direction, sph_ac(s, r))
}

/// Quadratic coefficient `c = (O - C) . (O - C) - r^2`.
pub open spec fn sph_c(s: Sphere, r: Ray) -> int {
    spec_dot(sph_ac(s, r), sph_ac(s, r)) - fxmul(s.radius as int, s.radius as int)
}

/// The discriminant `b^2 - 4 a c`.
pub open spec fn sph_disc(s: Sphere, r: Ray) -> int {
    fxmul(sph_b(s, r), sph_b(s, r)) - fxmul(4 * sph_a(s, r), sph_c(s, r))
}

/// The nearer quadratic root `(-b - sqrt(disc)) / (2a)`.
pub open spec fn sph_root1(s: Sphere, r: Ray) -> int {
    fxdiv(-sph_b(s, r) - fxsqrt(sph_disc(s, r)), 2 * sph_a(s, r))
}

/// The farther quadratic root `(-b + sqrt(disc)) / (2a)`.
pub open spec fn sph_root2(s: Sphere, r: Ray) -> int {
    fxdiv(-sph_b(s, r) + fxsqrt(sph_disc(s, r)), 2 * sph_a(s, r))
}

/// The parameter the root policy accepts, if any: nearer root first, then
/// the farther one, each against the inclusive `[t_min, t_max]` window.
pub open spec fn spec_sphere_hit_t(s: Sphere, r: Ray, t_min: int, t_max: int) -> Option<int> {
    if sph_a(s, r) <= 0 {
        None
    } else if sph_disc(s, r) < 0 {
        None
    } else if t_min <= sph_root1(s, r) <= t_max {
        Some(sph_root1(s, r))
    } else if t_min <= sph_root2(s, r) <= t_max {
        Some(sph_root2(s, r))
    } else {
        None
    }
}

/// The hit point's offset from the center at parameter `t`.
pub open spec fn sph_delta(s: Sphere, r: Ray, t: int) -> Vec3 {
    let p = spec_point_at(r, t);
    Vec3 {
        x: (p.x - s.center.x) as i128,
        y: (p.y - s.center.y) as i128,
        z: (p.z - s.center.z) as i128,
    }
}

/// The length of that offset.
pub open spec fn sph_len(s: Sphere, r: Ray, t: int) -> int {
    fxsqrt(spec_dot(sph_delta(s, r, t), sph_delta(s, r, t)))
}

/// The record built at an accepted parameter `t`: position on the ray,
/// normal pointing away from the center (unnormalized offset over length).
pub open spec fn spec_hit_record(s: Sphere, r: Ray, t: int) -> HitRecord {
    let delta = sph_delta(s, r, t);
    let len = sph_len(s, r, t);
    HitRecord {
        t: t as i128,
        position: spec_point_at(r, t),
        normal: Vec3 {
            x: fxdiv(delta.x as int, len) as i128,
            y: fxdiv(delta.y as int, len) as i128,
            z: fxdiv(delta.z as int, len) as i128,
        },
        material: s.material,
    }
}

/// The whole sphere intersection: the accepted root's record, or nothing —
/// also nothing for the degenerate point too near the center to normalize.
#[verifier::opaque]
pub open spec fn spec_sphere_hit(s: Sphere, r: Ray, t_min: int, t_max: int) -> Option<HitRecord> {
    match spec_sphere_hit_t(s, r, t_min, t_max) {
        Some(t) => if sph_len(s, r, t) >= LEN_GUARD {
            Some(spec_hit_record(s, r, t))
        } else {
            None
        },
        None => None,
    }
}

/// One normalized component stays within `NORM_LIM`.
proof fn lemma_unit_comp(x: int, ls: int, len: int)
    requires
        fxmul(x, x) <= ls,
        len == fxsqrt(ls),
        len >= LEN_GUARD,
        ls >= 0,
    ensures
        -NORM_LIM <= fxdiv(x, len) <= NORM_LIM,
{
    assert(x * x >= 0) by (nonlinear_arith);
    vstd::arithmetic::div_mod::lemma_fundamental_div_mod(x * x, SCALE as int);
    assert(x * x < (fxmul(x, x) + 1) * (SCALE as int)) by (nonlinear_arith)
        requires
            x * x == (SCALE as int) * ((x * x) / (SCALE as int)) + (x * x) % (SCALE as int),
            0 <= (x * x) % (SCALE as int) < SCALE as int,
            fxmul(x, x) == (x * x) / (SCALE as int),
    ;
    lemma_sqrt_floor(ls * (SCALE as int));
    assert((fxmul(x, x) + 1) * (SCALE as int) <= ls * (SCALE as int) + (SCALE as int))
        by (nonlinear_arith)
        requires
            fxmul(x, x) <= ls,
    ;
    // x^2 < (len+1)^2 + SCALE <= (len+9)^2 since SCALE <= 16*(len+1)
    assert(x * x < (len + 9) * (len + 9)) by (nonlinear_arith)
        requires
            x * x < ls * (SCALE as int) + (SCALE as int),
            ls * (SCALE as int) < (len + 1) * (len + 1),
            SCALE as int <= 16 * (len + 1),
    ;
    assert(-(len + 8) <= x <= len + 8) by (nonlinear_arith)
        requires
            x * x < (len + 9) * (len + 9),
            len >= 0,
    ;
    // |x * SCALE| <= (len+8)*SCALE <= (SCALE+128)*len since 8*SCALE <= 128*len
    assert(-((SCALE as int + 128) * len) <= x * (SCALE as int) <= (SCALE as int + 128) * len)
        by (nonlinear_arith)
        requires
            -(len + 8) <= x <= len + 8,
            8 * (SCALE as int) <= 128 * len,
            len >= 0,
    ;
    lemma_div_trunc_mag(x * (SCALE as int), (SCALE as int + 128) * len, len);
    vstd::arithmetic::div_mod::lemma_div_by_multiple(SCALE as int + 128, len);
}

/// The geometry capability: intersect a ray against `self` within an
/// inclusive parameter window.
pub trait Renderable {
    /// The well-formedness the intersection needs of `self`.
    spec fn wf(&self) -> bool;

    /// What `hit` returns, as a function of its arguments.
    spec fn spec_hit(&self, ray: Ray, t_min: int, t_max: int) -> Option<HitRecord>;

    /// Intersect; the result is exactly `spec_hit`, and any hit is a
    /// well-formed record inside the window.
    fn hit(&self, ray: &Ray, t_min: i128, t_max: i128) -> (r: Option<HitRecord>)
        requires
            self.wf(),
            wf_ray(*ray),
            0 <= t_min <= t_max <= T_MAX,
        ensures
            r == self.spec_hit(*ray, t_min as int, t_max as int),
            r matches Some(h) ==> wf_hit_record(h) && t_min <= h.t <= t_max,
    ;
}

impl Sphere {
    pub fn new(center: Vec3, radius: i128, material: Material) -> (s: Self)
        ensures
            s.center == center,
            s.radius == radius,
            s.material == material,
    {
        Self { center, radius, material }
    }

    /// The record at an accepted parameter, or nothing when the hit point
    /// falls degenerately close to the center.
    fn create_hit_record(&self, ray: &Ray, t: i128) -> (r: Option<HitRecord>)
        requires
            wf_sphere(*self),
            wf_ray(*ray),
            0 <= t <= T_MAX,
        ensures
            r == (if sph_len(*self, *ray, t as int) >= LEN_GUARD {
                Some(spec_hit_record(*self, *ray, t as int))
            } else {
                Option::<HitRecord>::None
            }),
            r matches Some(h) ==> wf_hit_record(h) && h.t == t,
    {
        let position = ray.point_at_distance(t);
        let delta = position.sub(self.center);
        let ls = delta.length_squared();
        proof {
            lemma_fxmul_mag_q(delta.x as int, delta.x as int, 1099511627776, 1099511627776,
                72057594037927936);
            lemma_fxmul_mag_q(delta.y as int, delta.y as int, 1099511627776, 1099511627776,
                72057594037927936);
            lemma_fxmul_mag_q(delta.z as int, delta.z as int, 1099511627776, 1099511627776,
                72057594037927936);
        }
        let len = fx_sqrt(ls);
        if len < LEN_GUARD {
            None
        } else {
            proof {
                lemma_fxmul_sq_nonneg(delta.x as int);
                lemma_fxmul_sq_nonneg(delta.y as int);
                lemma_fxmul_sq_nonneg(delta.z as int);
                lemma_unit_comp(delta.x as int, ls as int, len as int);
                lemma_unit_comp(delta.y as int, ls as int, len as int);
                lemma_unit_comp(delta.z as int, ls as int, len as int);
                lemma_sqrt_le(ls as int * (SCALE as int), 2199023255552);
            }
            let normal = delta.div_scale(len);
            Some(HitRecord { t, position, normal, material: self.material })
        }
    }
}

impl Renderable for Sphere {
    open spec fn wf(&self) -> bool {
        wf_sphere(*self)
    }

    open spec fn spec_hit(&self, ray: Ray, t_min: int, t_max: int) -> Option<HitRecord> {
        spec_sphere_hit(*self, ray, t_min, t_max)
    }

    fn hit(&self, ray: &Ray, t_min: i128, t_max: i128) -> (r: Option<HitRecord>) {
        proof {
            reveal(spec_sphere_hit);
        }
        let d = ray.direction();
        let ac = ray.origin().sub(self.center);
        proof {
            lemma_fxmul_mag_q(d.x as int, d.x as int, 1073741824, 1073741824, 68719476736);
            lemma_fxmul_mag_q(d.y as int, d.y as int, 1073741824, 1073741824, 68719476736);
            lemma_fxmul_mag_q(d.z as int, d.z as int, 1073741824, 1073741824, 68719476736);
            lemma_fxmul_sq_nonneg(d.x as int);
            lemma_fxmul_sq_nonneg(d.y as int);
            lemma_fxmul_sq_nonneg(d.z as int);
            lemma_fxmul_mag_q(d.x as int, ac.x as int, 1073741824, 34359738368, 2199023255552);
            lemma_fxmul_mag_q(d.y as int, ac.y as int, 1073741824, 34359738368, 2199023255552);
            lemma_fxmul_mag_q(d.z as int, ac.z as int, 1073741824, 34359738368, 2199023255552);
            lemma_fxmul_mag_q(ac.x as int, ac.x as int, 34359738368, 34359738368,
                70368744177664);
            lemma_fxmul_mag_q(ac.y as int, ac.y as int, 34359738368, 34359738368,
                70368744177664);
            lemma_fxmul_mag_q(ac.z as int, ac.z as int, 34359738368, 34359738368,
                70368744177664);
            lemma_fxmul_mag_q(self.radius as int, self.radius as int, 4294967296, 4294967296,
                1099511627776);
        }
        let a = d.dot(d);
        if a <= 0 {
            return None;
        }
        let b = 2 * d.dot(ac);
        let c = ac.dot(ac) - fx_mul(self.radius, self.radius);
        proof {
            lemma_fxmul_mag_q(b as int, b as int, 17592186044416, 17592186044416,
                18446744073709551616);
            lemma_fxmul_mag_q(4 * a as int, c as int, 1099511627776, 281474976710656,
                18446744073709551616);
        }
        let disc = fx_mul(b, b) - fx_mul(4 * a, c);
        if disc < 0 {
            return None;
        }
        proof {
            lemma_sqrt_le(disc as int * (SCALE as int), 35184372088832);
        }
        let sq = fx_sqrt(disc);
        let t = fx_div(-b - sq, 2 * a);
        if t_min <= t && t <= t_max {
            return self.create_hit_record(ray, t);
        }
        let t2 = fx_div(-b + sq, 2 * a);
        if t_min <= t2 && t2 <= t_max {
            return self.create_hit_record(ray, t2);
        }
        None
    }
}

/// With a positive leading coefficient the nearer root really is nearer.
proof fn lemma_roots_ordered(s: Sphere, r: Ray)
    requires
        sph_a(s, r) > 0,
        sph_disc(s, r) >= 0,
    ensures
        sph_root1(s, r) <= sph_root2(s, r),
        fxsqrt(sph_disc(s, r)) >= 0,
{
    lemma_sqrt_floor(sph_disc(s, r) * (SCALE as int));
    let b = sph_b(s, r);
    let sq = fxsqrt(sph_disc(s, r));
    lemma_div_trunc_monotone((-b - sq) * (SCALE as int), (-b + sq) * (SCALE as int), 2 * sph_a(
        s,
        r,
    ));
}

/// A hit found inside a tightened window is still the hit of any wider one.
proof fn lemma_sphere_hit_widen(s: Sphere, ray: Ray, t_min: int, m: int, m2: int)
    requires
        m <= m2,
    ensures
        spec_sphere_hit(s, ray, t_min, m) matches Some(h) ==> spec_sphere_hit(s, ray, t_min, m2)
            == Some(h),
{
    reveal(spec_sphere_hit);
    if spec_sphere_hit(s, ray, t_min, m) matches Some(h) {
        lemma_roots_ordered(s, ray);
        let r1 = sph_root1(s, ray);
        let r2 = sph_root2(s, ray);
        if !(t_min <= r1 <= m) {
            assert(t_min <= r2 <= m);
            assert(r1 < t_min);
        }
    }
}

/// A sphere missed inside a tightened window only hits a wider one farther
/// out than the tightened bound.
proof fn lemma_sphere_hit_tighten_none(s: Sphere, ray: Ray, t_min: int, m: int, m2: int)
    requires
        m <= m2 <= T_MAX,
        0 <= t_min,
        spec_sphere_hit(s, ray, t_min, m) is None,
    ensures
        spec_sphere_hit(s, ray, t_min, m2) matches Some(h) ==> h.t > m,
{
    reveal(spec_sphere_hit);
    if spec_sphere_hit(s, ray, t_min, m2) matches Some(h) {
        lemma_roots_ordered(s, ray);
        let r1 = sph_root1(s, ray);
        let r2 = sph_root2(s, ray);
        if t_min <= r1 <= m2 {
            if r1 <= m {
                assert(spec_sphere_hit_t(s, ray, t_min, m) == Some(r1));
                assert(false);
            }
        } else {
            assert(t_min <= r2 <= m2);
            if r2 <= m {
                assert(spec_sphere_hit_t(s, ray, t_min, m) == Some(r2));
                assert(false);
            }
        }
    }
}

/// Any hit's parameter lies inside the window it was searched in.
proof fn lemma_sphere_hit_in_range(s: Sphere, ray: Ray, t_min: int, m: int)
    requires
        0 <= t_min,
        m <= T_MAX,
    ensures
        spec_sphere_hit(s, ray, t_min, m) matches Some(h) ==> t_min <= h.t <= m,
{
    reveal(spec_sphere_hit);
}

/// The scan fold finds the nearest hit of the remaining spheres within the
/// current window, never farther than the best hit so far.
#[verifier::rlimit(100)]
#[verifier::spinoff_prover]
proof fn lemma_scene_from_nearest(
    s: Seq<Sphere>,
    ray: Ray,
    t_min: int,
    max: int,
    curr: Option<HitRecord>,
)
    requires
        0 <= t_min,
        max <= T_MAX,
        curr matches Some(c) ==> t_min <= c.t && c.t == max,
    ensures
        ({
            let r = scene_hit_from(s, ray, t_min, max, curr);
            &&& (r is None ==> curr is None && forall|i: int|
                0 <= i < s.len() ==> spec_sphere_hit(#[trigger] s[i], ray, t_min, max) is None)
            &&& (r matches Some(h) ==> {
                &&& curr == Some(h) || exists|i: int|
                    0 <= i < s.len() && spec_sphere_hit(#[trigger] s[i], ray, t_min, max)
                        == Some(h)
                &&& forall|i: int|
                    0 <= i < s.len() ==> (spec_sphere_hit(#[trigger] s[i], ray, t_min, max)
                        matches Some(hi) ==> h.t <= hi.t)
                &&& (curr matches Some(c) ==> h.t <= c.t)
            })
        }),
    decreases s.len(),
{
    if s.len() > 0 {
        let s0 = s[0];
        let rest = s.skip(1);
        let r = scene_hit_from(s, ray, t_min, max, curr);
        match spec_sphere_hit(s0, ray, t_min, max) {
            Some(h0) => {
                lemma_sphere_hit_in_range(s0, ray, t_min, max);
                assert(t_min <= h0.t <= max);
                lemma_scene_from_nearest(rest, ray, t_min, h0.t as int, Some(h0));
                assert(r == scene_hit_from(rest, ray, t_min, h0.t as int, Some(h0)));
                assert(r is Some);
                let h = r->Some_0;
                assert forall|i: int|
                    0 <= i < s.len() implies (spec_sphere_hit(
                    #[trigger] s[i],
                    ray,
                    t_min,
                    max,
                ) matches Some(hi) ==> h.t <= hi.t) by {
                    if i > 0 {
                        assert(s[i] == rest[i - 1]);
                        if spec_sphere_hit(s[i], ray, t_min, h0.t as int) is None {
                            lemma_sphere_hit_tighten_none(s[i], ray, t_min, h0.t as int, max);
                        } else {
                            lemma_sphere_hit_widen(s[i], ray, t_min, h0.t as int, max);
                        }
                    }
                }
                if h != h0 {
                    assert(Some(h0) == Some::<HitRecord>(h) || exists|j: int|
                        0 <= j < rest.len() && spec_sphere_hit(
                            #[trigger] rest[j],
                            ray,
                            t_min,
                            h0.t as int,
                        ) == Some(h));
                    let j = choose|j: int|
                        0 <= j < rest.len() && spec_sphere_hit(
                            #[trigger] rest[j],
                            ray,
                            t_min,
                            h0.t as int,
                        ) == Some(h);
                    lemma_sphere_hit_widen(rest[j], ray, t_min, h0.t as int, max);
                    assert(s[j + 1] == rest[j]);
                    assert(spec_sphere_hit(s[j + 1], ray, t_min, max) == Some(h));
                }
            },
            None => {
                lemma_scene_from_nearest(rest, ray, t_min, max, curr);
                assert(r == scene_hit_from(rest, ray, t_min, max, curr));
                if r is Some {
                    let h = r->Some_0;
                    assert forall|i: int|
                        0 <= i < s.len() implies (spec_sphere_hit(
                        #[trigger] s[i],
                        ray,
                        t_min,
                        max,
                    ) matches Some(hi) ==> h.t <= hi.t) by {
                        if i > 0 {
                            assert(s[i] == rest[i - 1]);
                        }
                    }
                    if curr != Some(h) {
                        let j = choose|j: int|
                            0 <= j < rest.len() && spec_sphere_hit(
                                #[trigger] rest[j],
                                ray,
                                t_min,
                                max,
                            ) == Some(h);
                        assert(s[j + 1] == rest[j]);
                        assert(spec_sphere_hit(s[j + 1], ray, t_min, max) == Some(h));
                    }
                } else {
                    assert forall|i: int| 0 <= i < s.len() implies spec_sphere_hit(
                        #[trigger] s[i],
                        ray,
                        t_min,
                        max,
                    ) is None by {
                        if i > 0 {
                            assert(s[i] == rest[i - 1]);
                        }
                    }
                }
            },
        }
    }
}

/// The scene scan reports the globally nearest intersection: a hit is some
/// member's hit and no member hits nearer; absence means no member hits at
/// all.  The order of the members does not change the reported parameter.
pub proof fn lemma_scene_hit_nearest(s: Seq<Sphere>, ray: Ray, t_min: int, t_max: int)
    requires
        0 <= t_min,
        t_max <= T_MAX,
    ensures
        spec_scene_hit(s, ray, t_min, t_max) is None ==> forall|i: int|
            0 <= i < s.len() ==> spec_sphere_hit(#[trigger] s[i], ray, t_min, t_max) is None,
        spec_scene_hit(s, ray, t_min, t_max) matches Some(h) ==> {
            &&& exists|i: int|
                0 <= i < s.len() && spec_sphere_hit(#[trigger] s[i], ray, t_min, t_max) == Some(h)
            &&& forall|i: int|
                0 <= i < s.len() ==> (spec_sphere_hit(#[trigger] s[i], ray, t_min, t_max)
                    matches Some(hi) ==> h.t <= hi.t)
        },
{
    lemma_scene_from_nearest(s, ray, t_min, t_max, None);
}

/// The scan state of the scene: fold the remaining spheres over the current
/// best hit, tightening the window to each accepted hit's parameter.
pub open spec fn scene_hit_from(
    s: Seq<Sphere>,
    ray: Ray,
    t_min: int,
    max: int,
    curr: Option<HitRecord>,
) -> Option<HitRecord>
    decreases s.len(),
{
    if s.len() == 0 {
        curr
    } else {
        match spec_sphere_hit(s[0], ray, t_min, max) {
            Some(h) => scene_hit_from(s.skip(1), ray, t_min, h.t as int, Some(h)),
            None => scene_hit_from(s.skip(1), ray, t_min, max, curr),
        }
    }
}

/// What the scene scan returns over the whole window.
pub open spec fn spec_scene_hit(s: Seq<Sphere>, ray: Ray, t_min: int, t_max: int) -> Option<
    HitRecord,
> {
    scene_hit_from(s, ray, t_min, t_max, None)
}

impl Renderable for Vec<Sphere> {
    open spec fn wf(&self) -> bool {
        forall|i: int| 0 <= i < self@.len() ==> wf_sphere(#[trigger] self@[i])
    }

    open spec fn spec_hit(&self, ray: Ray, t_min: int, t_max: int) -> Option<HitRecord> {
        spec_scene_hit(self@, ray, t_min, t_max)
    }

    fn hit(&self, ray: &Ray, t_min: i128, t_max: i128) -> (r: Option<HitRecord>) {
        let mut curr: Option<HitRecord> = None;
        let mut max: i128 = t_max;
        let mut idx: usize = 0;
        proof {
            assert(self@.skip(0) =~= self@);
        }
        while idx < self.len()
            invariant
                0 <= idx <= self@.len(),
                forall|i: int| 0 <= i < self@.len() ==> wf_sphere(#[trigger] self@[i]),
                wf_ray(*ray),
                0 <= t_min <= max <= t_max <= T_MAX,
                curr matches Some(c) ==> wf_hit_record(c) && t_min <= c.t <= t_max && max == c.t,
                scene_hit_from(self@.skip(idx as int), *ray, t_min as int, max as int, curr)
                    == spec_scene_hit(self@, *ray, t_min as int, t_max as int),
            decreases self@.len() - idx,
        {
            let member = &self[idx];
            let found = member.hit(ray, t_min, max);
            proof {
                assert(self@.skip(idx as int).skip(1) =~= self@.skip(idx as int + 1));
                assert(self@.skip(idx as int)[0] == self@[idx as int]);
            }
            match found {
                Some(h) => {
                    max = h.t;
                    curr = Some(h);
                },
                None => {},
            }
            idx = idx + 1;
        }
        proof {
            assert(self@.skip(self@.len() as int).len() == 0);
        }
        curr
    }
}

} // verus!
