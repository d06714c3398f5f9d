//! Fixed-point scalar arithmetic: an `i128` holds a real number scaled by
//! `SCALE`, so the value `1.0` is the raw integer `SCALE`.
//!
//! Multiplication and division truncate toward zero, mirroring the rounding
//! of a quotient of magnitudes; `sqrt_floor` is the exact integer square
//! root, so every operation here is a total function of its arguments.

use vstd::prelude::*;

verus! {

/// Raw units per 1.0 of value: 2^24.
pub const SCALE: i128 = 16777216;

/// Largest magnitude accepted by the scalar operations (2^62); products of
/// two such operands still fit in `i128`.
pub const FX_LIM: i128 = 4611686018427387904;

/// Largest value accepted by the fixed-point square root (2^100); scaling it
/// by `SCALE` still fits in `i128`.
pub const FX_SQRT_LIM: i128 = 1267650600228229401496703205376;

/// Quotient truncated toward zero, like Rust's integer division.
pub open spec fn div_trunc(a: int, d: int) -> int {
    if a >= 0 {
        a / d
    } else {
        -((-a) / d)
    }
}

/// The fixed-point product: (a/S)*(b/S) scaled back to raw units.
pub open spec fn fxmul(a: int, b: int) -> int {
    div_trunc(a * b, SCALE as int)
}

/// The fixed-point quotient: (a/S)/(d/S) scaled back to raw units.
pub open spec fn fxdiv(a: int, d: int) -> int {
    if d >= 0 {
        div_trunc(a * (SCALE as int), d)
    } else {
        -div_trunc(a * (SCALE as int), -d)
    }
}

/// Floor of the square root, by the classic base-4 recursion.
pub open spec fn sqrt_floor(x: int) -> int
    decreases x,
{
    if x <= 0 {
        0
    } else {
        let h = 2 * sqrt_floor(x / 4);
        if (h + 1) * (h + 1) <= x {
            h + 1
        } else {
            h
        }
    }
}

/// `sqrt_floor(x)` really brackets `x` between consecutive squares.
pub proof fn lemma_sqrt_floor(x: int)
    requires
        x >= 0,
    ensures
        sqrt_floor(x) >= 0,
        sqrt_floor(x) * sqrt_floor(x) <= x,
        x < (sqrt_floor(x) + 1) * (sqrt_floor(x) + 1),
    decreases x,
{
    if x > 0 {
        lemma_sqrt_floor(x / 4);
        let r = sqrt_floor(x / 4);
        let h = 2 * r;
        assert(4 * (x / 4) <= x && x <= 4 * (x / 4) + 3) by (nonlinear_arith);
        assert(h * h <= 4 * (x / 4)) by (nonlinear_arith)
            requires
                r * r <= x / 4,
                h == 2 * r,
        ;
        assert(4 * (x / 4) + 4 <= (h + 2) * (h + 2)) by (nonlinear_arith)
            requires
                x / 4 < (r + 1) * (r + 1),
                h == 2 * r,
        ;
    }
}

/// Two brackets around the same `x` pin the same root.
pub proof fn lemma_sqrt_floor_unique(x: int, r: int)
    requires
        x >= 0,
        r >= 0,
        r * r <= x,
        x < (r + 1) * (r + 1),
    ensures
        r == sqrt_floor(x),
{
    lemma_sqrt_floor(x);
    let s = sqrt_floor(x);
    assert(r == s) by (nonlinear_arith)
        requires
            r >= 0,
            s >= 0,
            r * r <= x,
            x < (r + 1) * (r + 1),
            s * s <= x,
            x < (s + 1) * (s + 1),
    ;
}

/// The square root is monotone.
pub proof fn lemma_sqrt_floor_monotone(x: int, y: int)
    requires
        0 <= x <= y,
    ensures
        sqrt_floor(x) <= sqrt_floor(y),
{
    lemma_sqrt_floor(x);
    lemma_sqrt_floor(y);
    let a = sqrt_floor(x);
    let b = sqrt_floor(y);
    assert(a <= b) by (nonlinear_arith)
        requires
            a >= 0,
            b >= 0,
            a * a <= x,
            x <= y,
            y < (b + 1) * (b + 1),
    ;
}

/// On a perfect square the root is exact.
pub proof fn lemma_sqrt_floor_square(a: int)
    requires
        a >= 0,
    ensures
        sqrt_floor(a * a) == a,
{
    assert(a * a >= 0 && a * a < (a + 1) * (a + 1)) by (nonlinear_arith)
        requires
            a >= 0,
    ;
    lemma_sqrt_floor_unique(a * a, a);
}

/// Magnitude bound for a product.
pub proof fn lemma_mul_mag(a: int, b: int, bound_a: int, bound_b: int)
    by (nonlinear_arith)
    requires
        -bound_a <= a <= bound_a,
        -bound_b <= b <= bound_b,
    ensures
        -(bound_a * bound_b) <= a * b <= bound_a * bound_b,
{
}

/// Truncating division keeps the Euclidean magnitude bound.
pub proof fn lemma_div_trunc_mag(x: int, bound: int, d: int)
    requires
        d >= 1,
        bound >= 0,
        -bound <= x <= bound,
    ensures
        -(bound / d) <= div_trunc(x, d) <= bound / d,
        div_trunc(x, d) == 0 <==> -d < x < d,
{
    if x >= 0 {
        vstd::arithmetic::div_mod::lemma_div_is_ordered(x, bound, d);
        vstd::arithmetic::div_mod::lemma_div_pos_is_pos(x, d);
        if x < d {
            vstd::arithmetic::div_mod::lemma_basic_div(x, d);
        } else {
            vstd::arithmetic::div_mod::lemma_div_non_zero(x, d);
        }
    } else {
        vstd::arithmetic::div_mod::lemma_div_is_ordered(-x, bound, d);
        vstd::arithmetic::div_mod::lemma_div_pos_is_pos(-x, d);
        if -x < d {
            vstd::arithmetic::div_mod::lemma_basic_div(-x, d);
        } else {
            vstd::arithmetic::div_mod::lemma_div_non_zero(-x, d);
        }
    }
}

/// Magnitude bound for a fixed-point product.
pub proof fn lemma_fxmul_mag(a: int, b: int, bound_a: int, bound_b: int)
    requires
        bound_a >= 0,
        bound_b >= 0,
        -bound_a <= a <= bound_a,
        -bound_b <= b <= bound_b,
    ensures
        -((bound_a * bound_b) / (SCALE as int)) <= fxmul(a, b)
            <= (bound_a * bound_b) / (SCALE as int),
{
    lemma_mul_mag(a, b, bound_a, bound_b);
    lemma_div_trunc_mag(a * b, bound_a * bound_b, SCALE as int);
}

/// Magnitude bound for a fixed-point product, with the quotient given as a
/// witness `q` so that no constant division is left to evaluate.
pub proof fn lemma_fxmul_mag_q(a: int, b: int, bound_a: int, bound_b: int, q: int)
    requires
        bound_a >= 0,
        bound_b >= 0,
        -bound_a <= a <= bound_a,
        -bound_b <= b <= bound_b,
        bound_a * bound_b == q * (SCALE as int),
    ensures
        -q <= fxmul(a, b) <= q,
{
    lemma_fxmul_mag(a, b, bound_a, bound_b);
    vstd::arithmetic::div_mod::lemma_div_multiples_vanish(q, SCALE as int);
    assert((SCALE as int) * q == q * (SCALE as int)) by (nonlinear_arith);
}

/// A fixed-point product by zero is zero.
pub proof fn lemma_fxmul_zero(a: int)
    ensures
        fxmul(a, 0) == 0,
{
    assert(a * 0 == 0) by (nonlinear_arith);
    vstd::arithmetic::div_mod::lemma_div_of0(SCALE as int);
}

/// Scaling a nonnegative value by a factor in [0, 1] does not enlarge it.
pub proof fn lemma_fxmul_le_one(a: int, x: int)
    requires
        0 <= a <= SCALE as int,
        0 <= x,
    ensures
        0 <= fxmul(a, x) <= x,
{
    assert(0 <= a * x <= (SCALE as int) * x) by (nonlinear_arith)
        requires
            0 <= a <= SCALE as int,
            0 <= x,
    ;
    vstd::arithmetic::div_mod::lemma_div_pos_is_pos(a * x, SCALE as int);
    vstd::arithmetic::div_mod::lemma_div_is_ordered(a * x, (SCALE as int) * x, SCALE as int);
    vstd::arithmetic::div_mod::lemma_div_multiples_vanish(x, SCALE as int);
}

/// The quotient of nonnegative values brackets the dividend.
pub proof fn lemma_div_bracket_nonneg(a: int, d: int)
    requires
        a >= 0,
        d > 0,
    ensures
        d * (a / d) <= a < d * (a / d + 1),
        a / d >= 0,
{
    vstd::arithmetic::div_mod::lemma_fundamental_div_mod(a, d);
    vstd::arithmetic::div_mod::lemma_div_pos_is_pos(a, d);
    assert(d * (a / d + 1) == d * (a / d) + d) by (nonlinear_arith);
}

/// Truncating division by a positive divisor is monotone in the numerator.
pub proof fn lemma_div_trunc_monotone(x: int, y: int, d: int)
    requires
        x <= y,
        0 < d,
    ensures
        div_trunc(x, d) <= div_trunc(y, d),
{
    if x >= 0 {
        vstd::arithmetic::div_mod::lemma_div_is_ordered(x, y, d);
    } else if y >= 0 {
        vstd::arithmetic::div_mod::lemma_div_pos_is_pos(-x, d);
        vstd::arithmetic::div_mod::lemma_div_pos_is_pos(y, d);
    } else {
        vstd::arithmetic::div_mod::lemma_div_is_ordered(-y, -x, d);
    }
}

/// Exact fixed-point multiplication of in-range operands.
pub fn fx_mul(a: i128, b: i128) -> (r: i128)
    requires
        -FX_LIM <= a <= FX_LIM,
        -FX_LIM <= b <= FX_LIM,
    ensures
        r == fxmul(a as int, b as int),
{
    let negative: bool = (a < 0) != (b < 0);
    let ma: i128 = if a < 0 { -a } else { a };
    let mb: i128 = if b < 0 { -b } else { b };
    proof {
        assert(0 <= ma as int * mb as int
            <= 21267647932558653966460912964485513216) by (nonlinear_arith)
            requires
                0 <= ma as int <= FX_LIM as int,
                0 <= mb as int <= FX_LIM as int,
        ;
    }
    let p: i128 = ma * mb;
    let q: i128 = (((p as u128) / (SCALE as u128)) as i128);
    proof {
        vstd::arithmetic::div_mod::lemma_div_pos_is_pos(p as int, SCALE as int);
        vstd::arithmetic::div_mod::lemma_div_is_ordered(p as int,
            21267647932558653966460912964485513216, SCALE as int);
        if negative {
            assert(a as int * b as int == -(ma as int * mb as int)) by (nonlinear_arith)
                requires
                    (a < 0) != (b < 0),
                    ma as int == if a < 0 { -(a as int) } else { a as int },
                    mb as int == if b < 0 { -(b as int) } else { b as int },
            ;
        } else {
            assert(a as int * b as int == ma as int * mb as int) by (nonlinear_arith)
                requires
                    (a < 0) == (b < 0),
                    ma as int == if a < 0 { -(a as int) } else { a as int },
                    mb as int == if b < 0 { -(b as int) } else { b as int },
            ;
        }
    }
    if negative {
        proof {
            if p == 0 {
                assert(div_trunc(0, SCALE as int) == 0);
            }
        }
        -q
    } else {
        q
    }
}

/// Exact fixed-point division by a nonzero in-range divisor.
pub fn fx_div(a: i128, d: i128) -> (r: i128)
    requires
        -FX_LIM <= a <= FX_LIM,
        -FX_LIM <= d <= FX_LIM,
        d != 0,
    ensures
        r == fxdiv(a as int, d as int),
{
    let negative: bool = (a < 0) != (d < 0);
    let ma: i128 = if a < 0 { -a } else { a };
    let md: i128 = if d < 0 { -d } else { d };
    let p: i128 = ma * SCALE;
    let q: i128 = (((p as u128) / (md as u128)) as i128);
    proof {
        vstd::arithmetic::div_mod::lemma_div_pos_is_pos(p as int, md as int);
        vstd::arithmetic::div_mod::lemma_div_is_ordered_by_denominator(p as int, 1, md as int);
        assert(p as int / 1 == p as int);
    }
    if negative {
        -q
    } else {
        q
    }
}

/// The fixed-point square of a value is never negative.
pub proof fn lemma_fxmul_sq_nonneg(a: int)
    ensures
        fxmul(a, a) >= 0,
{
    assert(a * a >= 0) by (nonlinear_arith);
    vstd::arithmetic::div_mod::lemma_div_pos_is_pos(a * a, SCALE as int);
}

/// A square root is bounded by any `b` whose square reaches `x`.
pub proof fn lemma_sqrt_le(x: int, b: int)
    requires
        0 <= x,
        0 <= b,
        x <= b * b,
    ensures
        sqrt_floor(x) <= b,
{
    lemma_sqrt_floor(x);
    let s = sqrt_floor(x);
    assert(s <= b) by (nonlinear_arith)
        requires
            s >= 0,
            b >= 0,
            s * s <= x,
            x <= b * b,
    ;
}

/// Exact integer square root by binary search.
pub fn isqrt(x: i128) -> (r: i128)
    requires
        x >= 0,
    ensures
        r == sqrt_floor(x as int),
        r >= 0,
{
    let xu: u128 = x as u128;
    let mut lo: u128 = 0;
    let mut hi: u128 = 0xFFFF_FFFF_FFFF_FFFFu128;
    proof {
        assert((hi + 1) * (hi + 1) > xu as int) by (nonlinear_arith)
            requires
                hi == 0xFFFF_FFFF_FFFF_FFFFu128,
                xu as int <= 0x7FFF_FFFF_FFFF_FFFF_FFFF_FFFF_FFFF_FFFFi128 as int,
        ;
    }
    while lo < hi
        invariant
            lo <= hi,
            hi <= 0xFFFF_FFFF_FFFF_FFFFu128,
            xu == x as int,
            lo * lo <= xu as int,
            (hi as int + 1) * (hi as int + 1) > xu as int,
        decreases hi - lo,
    {
        let mid: u128 = lo + (hi - lo + 1) / 2;
        proof {
            assert(lo < mid <= hi);
            assert(mid * mid < 0x1_0000_0000_0000_0000_0000_0000_0000_0000int) by (nonlinear_arith)
                requires
                    mid <= 0xFFFF_FFFF_FFFF_FFFFu128,
            ;
        }
        let sq: u128 = mid * mid;
        if sq <= xu {
            lo = mid;
        } else {
            hi = mid - 1;
        }
    }
    proof {
        lemma_sqrt_floor_unique(x as int, lo as int);
    }
    lo as i128
}

/// Fixed-point square root: `sqrt(x/S)` in raw units is `sqrt_floor(x*S)`.
pub open spec fn fxsqrt(x: int) -> int {
    sqrt_floor(x * (SCALE as int))
}

/// Exact fixed-point square root of a nonnegative in-range value.
pub fn fx_sqrt(x: i128) -> (r: i128)
    requires
        0 <= x <= FX_SQRT_LIM,
    ensures
        r == fxsqrt(x as int),
        r >= 0,
{
    isqrt(x * SCALE)
}

} // verus!
