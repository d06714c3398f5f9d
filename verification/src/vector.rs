//! The 3-component vector kernel, also read as an `(r, g, b)` color.
//!
//! Components are fixed-point scalars (see `fixed`); every operation has an
//! exact componentwise contract.

use vstd::prelude::*;

use crate::fixed::FX_LIM;
use crate::fixed::SCALE;
use crate::fixed::fx_div;
use crate::fixed::fx_mul;
use crate::fixed::fx_sqrt;
use crate::fixed::fxdiv;
use crate::fixed::fxmul;
use crate::fixed::fxsqrt;
use crate::fixed::lemma_fxmul_mag;
use crate::fixed::lemma_fxmul_sq_nonneg;
use crate::fixed::lemma_sqrt_le;
use crate::fixed::lemma_sqrt_floor;

verus! {

/// Component magnitude accepted by the vector operations (2^52 raw units);
/// well inside what the scalar operations accept, so that dot products,
/// lengths and quotients of such vectors stay exact.
pub const VEC_LIM: i128 = 4503599627370496;

/// A vector (or color) of three fixed-point components.
#[derive(Clone, Copy, Debug, PartialEq, Eq, Structural)]
pub struct Vec3 {
    pub x: i128,
    pub y: i128,
    pub z: i128,
}

/// Every component within `[-b, b]`.
pub open spec fn bounded(v: Vec3, b: int) -> bool {
    &&& -b <= v.x <= b
    &&& -b <= v.y <= b
    &&& -b <= v.z <= b
}

/// The fixed-point dot product.
pub open spec fn spec_dot(a: Vec3, b: Vec3) -> int {
    fxmul(a.x as int, b.x as int) + fxmul(a.y as int, b.y as int) + fxmul(a.z as int, b.z as int)
}

/// The fixed-point Euclidean length.
pub open spec fn spec_len(v: Vec3) -> int {
    fxsqrt(spec_dot(v, v))
}

/// Magnitude of any dot product of in-range vectors: 3 * VEC_LIM^2 / SCALE.
pub const DOT_LIM: i128 = 3626777458843887524118528;

/// A dot product of in-range vectors is small enough for every later use.
pub proof fn lemma_dot_mag(a: Vec3, b: Vec3)
    requires
        bounded(a, VEC_LIM as int),
        bounded(b, VEC_LIM as int),
    ensures
        -DOT_LIM <= spec_dot(a, b) <= DOT_LIM as int,
        spec_dot(a, a) >= 0,
{
    lemma_fxmul_mag(a.x as int, b.x as int, VEC_LIM as int, VEC_LIM as int);
    lemma_fxmul_mag(a.y as int, b.y as int, VEC_LIM as int, VEC_LIM as int);
    lemma_fxmul_mag(a.z as int, b.z as int, VEC_LIM as int, VEC_LIM as int);
    lemma_fxmul_sq_nonneg(a.x as int);
    lemma_fxmul_sq_nonneg(a.y as int);
    lemma_fxmul_sq_nonneg(a.z as int);
}

impl Vec3 {
    pub fn new(e1: i128, e2: i128, e3: i128) -> (v: Self)
        ensures
            v.x == e1,
            v.y == e2,
            v.z == e3,
    {
        Self { x: e1, y: e2, z: e3 }
    }

    pub fn x(&self) -> (r: i128)
        ensures
            r == self.x,
    {
        self.x
    }

    pub fn y(&self) -> (r: i128)
        ensures
            r == self.y,
    {
        self.y
    }

    pub fn z(&self) -> (r: i128)
        ensures
            r == self.z,
    {
        self.z
    }

    pub fn r(&self) -> (r: i128)
        ensures
            r == self.x,
    {
        self.x
    }

    pub fn g(&self) -> (r: i128)
        ensures
            r == self.y,
    {
        self.y
    }

    pub fn b(&self) -> (r: i128)
        ensures
            r == self.z,
    {
        self.z
    }

    /// Component index 0, 1 or 2; anything else is a caller defect.
    pub fn index(&self, i: i32) -> (r: i128)
        requires
            0 <= i <= 2,
        ensures
            r == if i == 0 {
                self.x
            } else if i == 1 {
                self.y
            } else {
                self.z
            },
    {
        if i == 0 {
            self.x
        } else if i == 1 {
            self.y
        } else {
            self.z
        }
    }

    /// Writes component index 0, 1 or 2; anything else is a caller defect.
    pub fn set_index(&mut self, i: i32, value: i128)
        requires
            0 <= i <= 2,
        ensures
            final(self).x == if i == 0 {
                value
            } else {
                old(self).x
            },
            final(self).y == if i == 1 {
                value
            } else {
                old(self).y
            },
            final(self).z == if i == 2 {
                value
            } else {
                old(self).z
            },
    {
        if i == 0 {
            self.x = value;
        } else if i == 1 {
            self.y = value;
        } else {
            self.z = value;
        }
    }

    pub fn add(self, rhs: Vec3) -> (r: Vec3)
        requires
            bounded(self, VEC_LIM as int),
            bounded(rhs, VEC_LIM as int),
        ensures
            r.x == self.x + rhs.x,
            r.y == self.y + rhs.y,
            r.z == self.z + rhs.z,
    {
        Vec3 { x: self.x + rhs.x, y: self.y + rhs.y, z: self.z + rhs.z }
    }

    pub fn sub(self, rhs: Vec3) -> (r: Vec3)
        requires
            bounded(self, VEC_LIM as int),
            bounded(rhs, VEC_LIM as int),
        ensures
            r.x == self.x - rhs.x,
            r.y == self.y - rhs.y,
            r.z == self.z - rhs.z,
    {
        Vec3 { x: self.x - rhs.x, y: self.y - rhs.y, z: self.z - rhs.z }
    }

    /// Componentwise product.
    pub fn mul(self, rhs: Vec3) -> (r: Vec3)
        requires
            bounded(self, VEC_LIM as int),
            bounded(rhs, VEC_LIM as int),
        ensures
            r.x == fxmul(self.x as int, rhs.x as int),
            r.y == fxmul(self.y as int, rhs.y as int),
            r.z == fxmul(self.z as int, rhs.z as int),
    {
        Vec3 {
            x: fx_mul(self.x, rhs.x),
            y: fx_mul(self.y, rhs.y),
            z: fx_mul(self.z, rhs.z),
        }
    }

    /// Componentwise quotient; the divisor may not have a zero component.
    pub fn div(self, rhs: Vec3) -> (r: Vec3)
        requires
            bounded(self, VEC_LIM as int),
            bounded(rhs, VEC_LIM as int),
            rhs.x != 0,
            rhs.y != 0,
            rhs.z != 0,
        ensures
            r.x == fxdiv(self.x as int, rhs.x as int),
            r.y == fxdiv(self.y as int, rhs.y as int),
            r.z == fxdiv(self.z as int, rhs.z as int),
    {
        Vec3 {
            x: fx_div(self.x, rhs.x),
            y: fx_div(self.y, rhs.y),
            z: fx_div(self.z, rhs.z),
        }
    }

    /// Scalar product.
    pub fn scale(self, s: i128) -> (r: Vec3)
        requires
            bounded(self, VEC_LIM as int),
            -VEC_LIM <= s <= VEC_LIM,
        ensures
            r.x == fxmul(self.x as int, s as int),
            r.y == fxmul(self.y as int, s as int),
            r.z == fxmul(self.z as int, s as int),
    {
        Vec3 { x: fx_mul(self.x, s), y: fx_mul(self.y, s), z: fx_mul(self.z, s) }
    }

    /// Scalar quotient; the divisor may not be zero.
    pub fn div_scale(self, s: i128) -> (r: Vec3)
        requires
            bounded(self, VEC_LIM as int),
            -VEC_LIM <= s <= VEC_LIM,
            s != 0,
        ensures
            r.x == fxdiv(self.x as int, s as int),
            r.y == fxdiv(self.y as int, s as int),
            r.z == fxdiv(self.z as int, s as int),
    {
        Vec3 { x: fx_div(self.x, s), y: fx_div(self.y, s), z: fx_div(self.z, s) }
    }

    pub fn dot(&self, rhs: Vec3) -> (r: i128)
        requires
            bounded(*self, VEC_LIM as int),
            bounded(rhs, VEC_LIM as int),
        ensures
            r == spec_dot(*self, rhs),
    {
        proof {
            lemma_fxmul_mag(self.x as int, rhs.x as int, VEC_LIM as int, VEC_LIM as int);
            lemma_fxmul_mag(self.y as int, rhs.y as int, VEC_LIM as int, VEC_LIM as int);
            lemma_fxmul_mag(self.z as int, rhs.z as int, VEC_LIM as int, VEC_LIM as int);
        }
        fx_mul(self.x, rhs.x) + fx_mul(self.y, rhs.y) + fx_mul(self.z, rhs.z)
    }

    pub fn cross(&self, rhs: Vec3) -> (r: Vec3)
        requires
            bounded(*self, VEC_LIM as int),
            bounded(rhs, VEC_LIM as int),
        ensures
            r.x == fxmul(self.y as int, rhs.z as int) - fxmul(self.z as int, rhs.y as int),
            r.y == fxmul(self.z as int, rhs.x as int) - fxmul(self.x as int, rhs.z as int),
            r.z == fxmul(self.x as int, rhs.y as int) - fxmul(self.y as int, rhs.x as int),
    {
        proof {
            lemma_fxmul_mag(self.y as int, rhs.z as int, VEC_LIM as int, VEC_LIM as int);
            lemma_fxmul_mag(self.z as int, rhs.y as int, VEC_LIM as int, VEC_LIM as int);
            lemma_fxmul_mag(self.z as int, rhs.x as int, VEC_LIM as int, VEC_LIM as int);
            lemma_fxmul_mag(self.x as int, rhs.z as int, VEC_LIM as int, VEC_LIM as int);
            lemma_fxmul_mag(self.x as int, rhs.y as int, VEC_LIM as int, VEC_LIM as int);
            lemma_fxmul_mag(self.y as int, rhs.x as int, VEC_LIM as int, VEC_LIM as int);
        }
        Vec3 {
            x: fx_mul(self.y, rhs.z) - fx_mul(self.z, rhs.y),
            y: fx_mul(self.z, rhs.x) - fx_mul(self.x, rhs.z),
            z: fx_mul(self.x, rhs.y) - fx_mul(self.y, rhs.x),
        }
    }

    pub fn length_squared(&self) -> (r: i128)
        requires
            bounded(*self, VEC_LIM as int),
        ensures
            r == spec_dot(*self, *self),
            r >= 0,
    {
        proof {
            lemma_dot_mag(*self, *self);
        }
        self.dot(*self)
    }

    pub fn length(&self) -> (r: i128)
        requires
            bounded(*self, VEC_LIM as int),
        ensures
            r == spec_len(*self),
            r >= 0,
    {
        proof {
            lemma_dot_mag(*self, *self);
        }
        let ls = self.length_squared();
        fx_sqrt(ls)
    }

    /// The length of an in-range vector is itself in range for division.
    pub proof fn lemma_len_mag(v: Vec3)
        requires
            bounded(v, VEC_LIM as int),
        ensures
            0 <= spec_len(v) <= FX_LIM as int,
    {
        lemma_dot_mag(v, v);
        lemma_sqrt_floor(spec_dot(v, v) * (SCALE as int));
        lemma_sqrt_le(spec_dot(v, v) * (SCALE as int), FX_LIM as int);
    }

    pub fn unit_vector(&self) -> (r: Vec3)
        requires
            bounded(*self, VEC_LIM as int),
            spec_len(*self) > 0,
        ensures
            r.x == fxdiv(self.x as int, spec_len(*self)),
            r.y == fxdiv(self.y as int, spec_len(*self)),
            r.z == fxdiv(self.z as int, spec_len(*self)),
    {
        proof {
            Self::lemma_len_mag(*self);
        }
        let len = self.length();
        Vec3 {
            x: fx_div(self.x, len),
            y: fx_div(self.y, len),
            z: fx_div(self.z, len),
        }
    }

    /// In-place normalization, defined like `unit_vector`.
    pub fn make_unit_vector(&mut self)
        requires
            bounded(*old(self), VEC_LIM as int),
            spec_len(*old(self)) > 0,
        ensures
            final(self).x == fxdiv(old(self).x as int, spec_len(*old(self))),
            final(self).y == fxdiv(old(self).y as int, spec_len(*old(self))),
            final(self).z == fxdiv(old(self).z as int, spec_len(*old(self))),
    {
        let u = self.unit_vector();
        *self = u;
    }
}

/// One component's share of a normalized vector: with `mu` its magnitude
/// after division by the length, `mu` stays within one unit and its square
/// brackets the exact quotient's square.
proof fn lemma_unit_len_comp(m: int, ls: int, len: int)
    requires
        m >= 0,
        ls >= 0,
        fxmul(m, m) <= ls,
        len * len <= ls * (SCALE as int),
        ls * (SCALE as int) < (len + 1) * (len + 1),
        len >= 4 * (SCALE as int),
    ensures
        ({
            let mu = (m * (SCALE as int)) / len;
            &&& 0 <= mu <= SCALE as int
            &&& (mu * mu) * (len * len) <= (m * m) * ((SCALE as int) * (SCALE as int))
            &&& (m * m) * ((SCALE as int) * (SCALE as int)) < (mu * mu) * (len * len) + 2 * (mu
                * (len * len)) + (len * len)
        }),
{
    let s = SCALE as int;
    let mu = (m * s) / len;
    crate::fixed::lemma_div_bracket_nonneg(m * s, len);
    assert(m * s >= 0) by (nonlinear_arith)
        requires
            m >= 0,
            s > 0,
    ;
    assert((mu * mu) * (len * len) <= (m * s) * (m * s)) by (nonlinear_arith)
        requires
            0 <= len * mu <= m * s,
    ;
    assert((m * s) * (m * s) < (mu * mu) * (len * len) + 2 * (mu * (len * len)) + (len * len))
        by (nonlinear_arith)
        requires
            0 <= m * s < len * (mu + 1),
            mu >= 0,
            len > 0,
    ;
    assert((m * s) * (m * s) == (m * m) * (s * s)) by (nonlinear_arith);
    // the component is at most one unit longer than the whole length
    vstd::arithmetic::div_mod::lemma_fundamental_div_mod(m * m, s);
    assert(m * m >= 0) by (nonlinear_arith);
    assert(m * m < (ls + 1) * s) by (nonlinear_arith)
        requires
            m * m == s * ((m * m) / s) + (m * m) % s,
            0 <= (m * m) % s < s,
            (m * m) / s <= ls,
    ;
    assert(m * m < (len + 2) * (len + 2)) by (nonlinear_arith)
        requires
            m * m < (ls + 1) * s,
            ls * s < (len + 1) * (len + 1),
            s == SCALE as int,
            len >= 4 * s,
    ;
    assert(m <= len + 1) by (nonlinear_arith)
        requires
            m >= 0,
            len >= 0,
            m * m < (len + 2) * (len + 2),
    ;
    assert(m * s <= len * s + s) by (nonlinear_arith)
        requires
            m <= len + 1,
            s > 0,
    ;
    vstd::arithmetic::div_mod::lemma_div_is_ordered(m * s, len * s + s, len);
    vstd::arithmetic::div_mod::lemma_div_multiples_vanish_fancy(s, s, len);
}

/// Normalizing keeps the length one up to the representation's tolerance:
/// for every vector at least four units long, the normalized vector's
/// squared length is within 8 raw units of one, and its length within 5
/// raw units of one unit — about 3e-7 of relative error.
pub proof fn lemma_unit_vector_length(v: Vec3)
    requires
        bounded(v, VEC_LIM as int),
        spec_len(v) >= 4 * SCALE,
    ensures
        ({
            let len = spec_len(v);
            let u = Vec3 {
                x: fxdiv(v.x as int, len) as i128,
                y: fxdiv(v.y as int, len) as i128,
                z: fxdiv(v.z as int, len) as i128,
            };
            &&& SCALE - 8 <= spec_dot(u, u) <= SCALE
            &&& SCALE - 5 <= spec_len(u) <= SCALE
        }),
{
    let s = SCALE as int;
    let ls = spec_dot(v, v);
    let len = spec_len(v);
    lemma_dot_mag(v, v);
    crate::fixed::lemma_sqrt_floor(ls * s);
    let mx = if v.x >= 0 {
        v.x as int
    } else {
        -(v.x as int)
    };
    let my = if v.y >= 0 {
        v.y as int
    } else {
        -(v.y as int)
    };
    let mz = if v.z >= 0 {
        v.z as int
    } else {
        -(v.z as int)
    };
    assert(mx * mx == v.x * v.x && my * my == v.y * v.y && mz * mz == v.z * v.z)
        by (nonlinear_arith)
        requires
            mx == if v.x >= 0 {
                v.x as int
            } else {
                -(v.x as int)
            },
            my == if v.y >= 0 {
                v.y as int
            } else {
                -(v.y as int)
            },
            mz == if v.z >= 0 {
                v.z as int
            } else {
                -(v.z as int)
            },
    ;
    lemma_fxmul_sq_nonneg(v.x as int);
    lemma_fxmul_sq_nonneg(v.y as int);
    lemma_fxmul_sq_nonneg(v.z as int);
    lemma_unit_len_comp(mx, ls, len);
    lemma_unit_len_comp(my, ls, len);
    lemma_unit_len_comp(mz, ls, len);
    let mux = (mx * s) / len;
    let muy = (my * s) / len;
    let muz = (mz * s) / len;
    let ux = fxdiv(v.x as int, len);
    let uy = fxdiv(v.y as int, len);
    let uz = fxdiv(v.z as int, len);
    assert(ux == if v.x >= 0 {
        mux
    } else {
        -mux
    } && uy == if v.y >= 0 {
        muy
    } else {
        -muy
    } && uz == if v.z >= 0 {
        muz
    } else {
        -muz
    });
    assert(ux * ux == mux * mux && uy * uy == muy * muy && uz * uz == muz * muz)
        by (nonlinear_arith)
        requires
            ux == mux || ux == -mux,
            uy == muy || uy == -muy,
            uz == muz || uz == -muz,
    ;
    // the exact squares of the components bracket SCALE * ls
    vstd::arithmetic::div_mod::lemma_fundamental_div_mod(mx * mx, s);
    vstd::arithmetic::div_mod::lemma_fundamental_div_mod(my * my, s);
    vstd::arithmetic::div_mod::lemma_fundamental_div_mod(mz * mz, s);
    assert(s * ls <= mx * mx + my * my + mz * mz < s * ls + 3 * s);
    // upper bound: the normalized squares cannot exceed one plus slack
    assert((len + 1) * (len + 1) == len * len + 2 * len + 1) by (nonlinear_arith);
    assert(len * len >= (4 * s) * len) by (nonlinear_arith)
        requires
            len >= 4 * s,
            s > 0,
    ;
    assert((mux * mux) * (len * len) + (muy * muy) * (len * len) + (muz * muz) * (len * len) < (s
        * s + s) * (len * len)) by {
        assert((mx * mx) * (s * s) + (my * my) * (s * s) + (mz * mz) * (s * s) < (s * ls + 3 * s)
            * (s * s)) by (nonlinear_arith)
            requires
                mx * mx + my * my + mz * mz < s * ls + 3 * s,
                s > 0,
        ;
        assert((s * ls + 3 * s) * (s * s) == (ls * s) * (s * s) + 3 * s * (s * s))
            by (nonlinear_arith);
        assert((ls * s) * (s * s) < (len * len + 2 * len + 1) * (s * s)) by (nonlinear_arith)
            requires
                ls * s < (len + 1) * (len + 1),
                (len + 1) * (len + 1) == len * len + 2 * len + 1,
                s > 0,
        ;
        assert((len * len + 2 * len + 1) * (s * s) + 3 * s * (s * s) <= (s * s + s) * (len * len))
            by (nonlinear_arith)
            requires
                len * len >= (4 * s) * len,
                len >= 4 * s,
                s == SCALE as int,
        ;
    }
    assert(mux * mux + muy * muy + muz * muz < s * s + s) by (nonlinear_arith)
        requires
            (mux * mux) * (len * len) + (muy * muy) * (len * len) + (muz * muz) * (len * len) < (s
                * s + s) * (len * len),
            len * len > 0,
    ;
    // lower bound: the normalized squares cannot fall below one minus slack
    assert((mux * mux) * (len * len) + (muy * muy) * (len * len) + (muz * muz) * (len * len) + 2 * (
    mux * (len * len)) + 2 * (muy * (len * len)) + 2 * (muz * (len * len)) + 3 * (len * len) > (s
        * s) * (len * len)) by {
        assert((mx * mx) * (s * s) + (my * my) * (s * s) + (mz * mz) * (s * s) >= (s * ls) * (s
            * s)) by (nonlinear_arith)
            requires
                mx * mx + my * my + mz * mz >= s * ls,
                s > 0,
        ;
        assert((s * ls) * (s * s) >= (s * s) * (len * len)) by (nonlinear_arith)
            requires
                ls * s >= len * len,
                s > 0,
        ;
    }
    assert(mux * (len * len) <= s * (len * len) && muy * (len * len) <= s * (len * len) && muz * (
    len * len) <= s * (len * len)) by (nonlinear_arith)
        requires
            mux <= s,
            muy <= s,
            muz <= s,
            len * len >= 0,
    ;
    assert(mux * mux + muy * muy + muz * muz > s * s - 6 * s - 3) by (nonlinear_arith)
        requires
            (mux * mux) * (len * len) + (muy * muy) * (len * len) + (muz * muz) * (len * len) + 2
                * (mux * (len * len)) + 2 * (muy * (len * len)) + 2 * (muz * (len * len)) + 3 * (
            len * len) > (s * s) * (len * len),
            mux * (len * len) <= s * (len * len),
            muy * (len * len) <= s * (len * len),
            muz * (len * len) <= s * (len * len),
            len * len > 0,
    ;
    // from exact squares to the truncated dot product
    let u = Vec3 { x: ux as i128, y: uy as i128, z: uz as i128 };
    vstd::arithmetic::div_mod::lemma_fundamental_div_mod(mux * mux, s);
    vstd::arithmetic::div_mod::lemma_fundamental_div_mod(muy * muy, s);
    vstd::arithmetic::div_mod::lemma_fundamental_div_mod(muz * muz, s);
    assert(mux * mux >= 0 && muy * muy >= 0 && muz * muz >= 0) by (nonlinear_arith)
        requires
            mux >= 0,
            muy >= 0,
            muz >= 0,
    ;
    assert(spec_dot(u, u) == (mux * mux) / s + (muy * muy) / s + (muz * muz) / s);
    let dot = spec_dot(u, u);
    assert(s * dot <= mux * mux + muy * muy + muz * muz <= s * dot + 3 * s - 3);
    assert(SCALE - 8 <= dot <= SCALE);
    // and to the truncated length
    crate::fixed::lemma_sqrt_floor_square(s - 5);
    crate::fixed::lemma_sqrt_floor_square(s);
    crate::fixed::lemma_sqrt_floor_monotone((s - 5) * (s - 5), dot * s);
    crate::fixed::lemma_sqrt_floor_monotone(dot * s, s * s);
    assert((s - 5) * (s - 5) <= dot * s && dot * s <= s * s) by (nonlinear_arith)
        requires
            s == SCALE as int,
            SCALE - 8 <= dot <= SCALE,
    ;
}

} // verus!
