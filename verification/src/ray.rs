//! Rays: an origin and an (unnormalized) direction, with evaluation of the
//! point at a given parameter.

use vstd::prelude::*;

use crate::fixed::fxmul;
use crate::fixed::lemma_fxmul_mag;
use crate::vector::Vec3;
use crate::vector::bounded;

verus! {

/// Magnitude bound for ray directions (2^30 raw units, 64.0 of value).
pub const DIR_LIM: i128 = 1073741824;

/// Magnitude bound for ray origins (2^34 raw units, 1024.0 of value).
pub const ORG_LIM: i128 = 17179869184;

/// Largest ray parameter handled (2^32 raw units, 256.0 of value); also the
/// upper search bound the integrator passes in place of infinity.
pub const T_MAX: i128 = 4294967296;

/// Magnitude bound for evaluated ray points (2^39 raw units): an origin
/// within `ORG_LIM` moved by at most `T_MAX * DIR_LIM / SCALE`.
pub const POS_LIM: i128 = 549755813888;

/// A well-formed ray: origin and direction within the renderer's bounds.
pub open spec fn wf_ray(r: Ray) -> bool {
    &&& bounded(r.origin, ORG_LIM as int)
    &&& bounded(r.direction, DIR_LIM as int)
}

/// Where a ray is after parameter `t`, componentwise.
pub open spec fn spec_point_at(r: Ray, t: int) -> Vec3 {
    Vec3 {
        x: (r.origin.x + fxmul(t, r.direction.x as int)) as i128,
        y: (r.origin.y + fxmul(t, r.direction.y as int)) as i128,
        z: (r.origin.z + fxmul(t, r.direction.z as int)) as i128,
    }
}

/// Decides `wf_ray` at run time: whether a ray's origin and direction are
/// inside the renderer's bounds.
pub fn ray_in_bounds(r: &Ray) -> (ok: bool)
    ensures
        ok == wf_ray(*r),
{
    -ORG_LIM <= r.origin.x && r.origin.x <= ORG_LIM && -ORG_LIM <= r.origin.y && r.origin.y
        <= ORG_LIM && -ORG_LIM <= r.origin.z && r.origin.z <= ORG_LIM && -DIR_LIM
        <= r.direction.x && r.direction.x <= DIR_LIM && -DIR_LIM <= r.direction.y && r.direction.y
        <= DIR_LIM && -DIR_LIM <= r.direction.z && r.direction.z <= DIR_LIM
}

#[derive(Clone, Copy, Debug, PartialEq, Eq, Structural)]
pub struct Ray {
    pub origin: Vec3,
    pub direction: Vec3,
}

impl Ray {
    pub fn new(origin: Vec3, direction: Vec3) -> (r: Self)
        ensures
            r.origin == origin,
            r.direction == direction,
    {
        Self { origin, direction }
    }

    pub fn origin(&self) -> (r: Vec3)
        ensures
            r == self.origin,
    {
        self.origin
    }

    pub fn direction(&self) -> (r: Vec3)
        ensures
            r == self.direction,
    {
        self.direction
    }

    /// The point `origin + t * direction`, exactly as the model states it.
    pub fn point_at_distance(&self, t: i128) -> (p: Vec3)
        requires
            wf_ray(*self),
            -T_MAX <= t <= T_MAX,
        ensures
            p == spec_point_at(*self, t as int),
            p.x == self.origin.x + fxmul(t as int, self.direction.x as int),
            p.y == self.origin.y + fxmul(t as int, self.direction.y as int),
            p.z == self.origin.z + fxmul(t as int, self.direction.z as int),
            bounded(p, POS_LIM as int),
    {
        proof {
            lemma_fxmul_mag(t as int, self.direction.x as int, T_MAX as int, DIR_LIM as int);
            lemma_fxmul_mag(t as int, self.direction.y as int, T_MAX as int, DIR_LIM as int);
            lemma_fxmul_mag(t as int, self.direction.z as int, T_MAX as int, DIR_LIM as int);
        }
        let scaled = self.direction.scale(t);
        self.origin.add(scaled)
    }
}

} // verus!
