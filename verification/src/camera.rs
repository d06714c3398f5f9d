//! The camera: maps a normalized viewport coordinate `(u, v)` to a ray from
//! a fixed eye point through an axis-aligned image plane.

use vstd::prelude::*;

use crate::fixed::SCALE;
use crate::fixed::fxmul;
use crate::fixed::lemma_fxmul_mag;
use crate::ray::Ray;
use crate::ray::wf_ray;
use crate::vector::Vec3;
use crate::vector::bounded;

verus! {

/// Magnitude bound for the camera's viewport vectors (2^27 raw units, 8.0 of
/// value); rays built from such a camera stay within the ray bounds.
pub const CAM_LIM: i128 = 134217728;

/// A well-formed camera: all four viewport vectors within `CAM_LIM`.
pub open spec fn wf_camera(c: Camera) -> bool {
    &&& bounded(c.bottom_left, CAM_LIM as int)
    &&& bounded(c.horizontal, CAM_LIM as int)
    &&& bounded(c.vertical, CAM_LIM as int)
    &&& bounded(c.origin, CAM_LIM as int)
}

/// The direction of the ray through viewport coordinate `(u, v)`,
/// componentwise: `bottom_left + u*horizontal + v*vertical - origin`.
pub open spec fn spec_ray_direction(c: Camera, u: int, v: int) -> Vec3 {
    Vec3 {
        x: (c.bottom_left.x + fxmul(u, c.horizontal.x as int) + fxmul(v, c.vertical.x as int)
            - c.origin.x) as i128,
        y: (c.bottom_left.y + fxmul(u, c.horizontal.y as int) + fxmul(v, c.vertical.y as int)
            - c.origin.y) as i128,
        z: (c.bottom_left.z + fxmul(u, c.horizontal.z as int) + fxmul(v, c.vertical.z as int)
            - c.origin.z) as i128,
    }
}

#[derive(Clone, Copy, Debug, PartialEq, Eq, Structural)]
pub struct Camera {
    pub bottom_left: Vec3,
    pub horizontal: Vec3,
    pub vertical: Vec3,
    pub origin: Vec3,
}

impl Camera {
    pub fn new(bottom_left: Vec3, horizontal: Vec3, vertical: Vec3, origin: Vec3) -> (c: Camera)
        ensures
            c.bottom_left == bottom_left,
            c.horizontal == horizontal,
            c.vertical == vertical,
            c.origin == origin,
    {
        Camera { bottom_left, horizontal, vertical, origin }
    }

    /// The ray through viewport coordinate `(u, v)`; `u` and `v` are
    /// fixed-point values in roughly the unit interval.
    pub fn get_ray(&self, u: i128, v: i128) -> (r: Ray)
        requires
            wf_camera(*self),
            -SCALE <= u <= 2 * SCALE,
            -SCALE <= v <= 2 * SCALE,
        ensures
            r.origin == self.origin,
            r.direction == spec_ray_direction(*self, u as int, v as int),
            wf_ray(r),
    {
        proof {
            lemma_fxmul_mag(u as int, self.horizontal.x as int, 2 * SCALE as int, CAM_LIM as int);
            lemma_fxmul_mag(u as int, self.horizontal.y as int, 2 * SCALE as int, CAM_LIM as int);
            lemma_fxmul_mag(u as int, self.horizontal.z as int, 2 * SCALE as int, CAM_LIM as int);
            lemma_fxmul_mag(v as int, self.vertical.x as int, 2 * SCALE as int, CAM_LIM as int);
            lemma_fxmul_mag(v as int, self.vertical.y as int, 2 * SCALE as int, CAM_LIM as int);
            lemma_fxmul_mag(v as int, self.vertical.z as int, 2 * SCALE as int, CAM_LIM as int);
        }
        let direction = self
            .bottom_left
            .add(self.horizontal.scale(u))
            .add(self.vertical.scale(v))
            .sub(self.origin);
        Ray::new(self.origin, direction)
    }
}

} // verus!
