//! 8-bit channel quantization and `0x00RRGGBB` packing.
//!
//! A channel is clamped to `[0, 1]`, scaled by 255.99 and truncated toward
//! zero; the three bytes are packed into one `u32` word.

use vstd::prelude::*;

use crate::fixed::SCALE;
use crate::fixed::fxsqrt;
use crate::fixed::lemma_sqrt_le;
use crate::fixed::lemma_sqrt_floor;
use crate::vector::Vec3;

verus! {

/// A channel clamped to the unit interval, in raw units.
pub open spec fn clamp01(c: int) -> int {
    if c < 0 {
        0
    } else if c > SCALE as int {
        SCALE as int
    } else {
        c
    }
}

/// The quantized 8-bit channel: floor of `255.99 * clamp01(c)`.
pub open spec fn quant(c: int) -> int {
    (25599 * clamp01(c)) / (100 * SCALE as int)
}

/// Three bytes packed into one word, highest byte red.
pub open spec fn spec_pack(r: int, g: int, b: int) -> int {
    r * 65536 + g * 256 + b
}

/// The packed quantized color of a vector read as `(r, g, b)`.
pub open spec fn spec_rgb(v: Vec3) -> int {
    spec_pack(quant(v.x as int), quant(v.y as int), quant(v.z as int))
}

/// One quantized channel; total over every raw value.
pub fn quant_channel(c: i128) -> (q: u32)
    ensures
        q == quant(c as int),
        q <= 255,
{
    let cl: i128 = if c < 0 {
        0
    } else if c > SCALE {
        SCALE
    } else {
        c
    };
    let num: i128 = 25599 * cl;
    proof {
        vstd::arithmetic::div_mod::lemma_div_pos_is_pos(num as int, 100 * SCALE as int);
        vstd::arithmetic::div_mod::lemma_div_is_ordered(num as int, 25599 * SCALE as int,
            100 * SCALE as int);
        vstd::arithmetic::div_mod::lemma_fundamental_div_mod_converse(25599 * SCALE as int,
            100 * SCALE as int, 255, 99 * SCALE as int);
    }
    ((num as u128) / 1677721600u128) as u32
}

/// The packed color of `v`.
pub fn to_u32_rgb(v: &Vec3) -> (p: u32)
    ensures
        p == spec_rgb(*v),
        p <= 16777215,
{
    let qr = quant_channel(v.x);
    let qg = quant_channel(v.y);
    let qb = quant_channel(v.z);
    let p = (qr << 16u32) | (qg << 8u32) | qb;
    proof {
        assert(((qr << 16u32) | (qg << 8u32) | qb) == qr * 65536 + qg * 256 + qb)
            by (bit_vector)
            requires
                qr <= 255u32,
                qg <= 255u32,
                qb <= 255u32,
        ;
    }
    p
}

/// The red byte of a packed color.
pub fn get_r(p: u32) -> (r: u8)
    ensures
        r == (p >> 16u32) & 0xFFu32,
{
    proof {
        assert((p >> 16u32) & 0xFFu32 <= 255u32) by (bit_vector);
    }
    ((p >> 16u32) & 0xFFu32) as u8
}

/// The green byte of a packed color.
pub fn get_g(p: u32) -> (r: u8)
    ensures
        r == (p >> 8u32) & 0xFFu32,
{
    proof {
        assert((p >> 8u32) & 0xFFu32 <= 255u32) by (bit_vector);
    }
    ((p >> 8u32) & 0xFFu32) as u8
}

/// The blue byte of a packed color.
pub fn get_b(p: u32) -> (r: u8)
    ensures
        r == p & 0xFFu32,
{
    proof {
        assert(p & 0xFFu32 <= 255u32) by (bit_vector);
    }
    (p & 0xFFu32) as u8
}

/// Packing three bytes and reading them back returns the bytes: the text
/// image writer sees exactly the quantized channels.
pub proof fn lemma_pack_unpack(r: u32, g: u32, b: u32)
    requires
        r <= 255,
        g <= 255,
        b <= 255,
    ensures
        (spec_pack(r as int, g as int, b as int) as u32 >> 16u32) & 0xFFu32 == r,
        (spec_pack(r as int, g as int, b as int) as u32 >> 8u32) & 0xFFu32 == g,
        spec_pack(r as int, g as int, b as int) as u32 & 0xFFu32 == b,
{
    let p: u32 = (r * 65536 + g * 256 + b) as u32;
    assert((p >> 16u32) & 0xFFu32 == r && (p >> 8u32) & 0xFFu32 == g && p & 0xFFu32 == b)
        by (bit_vector)
        requires
            r <= 255u32,
            g <= 255u32,
            b <= 255u32,
            p == (r * 65536 + g * 256 + b) as u32,
    ;
    assert(spec_pack(r as int, g as int, b as int) == r * 65536 + g * 256 + b);
    assert(spec_pack(r as int, g as int, b as int) as u32 == p);
}

/// One gamma-corrected channel: the square root of the channel clamped to
/// the unit interval.  Outside that interval the quantizer would clamp to
/// the same byte anyway.
pub open spec fn spec_gamma(c: int) -> int {
    fxsqrt(clamp01(c))
}

/// The packed color of `v` after gamma correction.
pub open spec fn spec_gamma_rgb(v: Vec3) -> int {
    spec_rgb(
        Vec3 {
            x: spec_gamma(v.x as int) as i128,
            y: spec_gamma(v.y as int) as i128,
            z: spec_gamma(v.z as int) as i128,
        },
    )
}

/// Per-channel square root, the fixed gamma correction before output.
pub fn gamma_2_correct(v: &Vec3) -> (r: Vec3)
    ensures
        r.x == spec_gamma(v.x as int),
        r.y == spec_gamma(v.y as int),
        r.z == spec_gamma(v.z as int),
        0 <= r.x <= SCALE,
        0 <= r.y <= SCALE,
        0 <= r.z <= SCALE,
{
    let cx: i128 = if v.x < 0 {
        0
    } else if v.x > SCALE {
        SCALE
    } else {
        v.x
    };
    let cy: i128 = if v.y < 0 {
        0
    } else if v.y > SCALE {
        SCALE
    } else {
        v.y
    };
    let cz: i128 = if v.z < 0 {
        0
    } else if v.z > SCALE {
        SCALE
    } else {
        v.z
    };
    proof {
        lemma_sqrt_le(cx as int * SCALE as int, SCALE as int);
        lemma_sqrt_le(cy as int * SCALE as int, SCALE as int);
        lemma_sqrt_le(cz as int * SCALE as int, SCALE as int);
        lemma_sqrt_floor(cx as int * SCALE as int);
        lemma_sqrt_floor(cy as int * SCALE as int);
        lemma_sqrt_floor(cz as int * SCALE as int);
    }
    Vec3 {
        x: crate::fixed::fx_sqrt(cx),
        y: crate::fixed::fx_sqrt(cy),
        z: crate::fixed::fx_sqrt(cz),
    }
}

} // verus!
