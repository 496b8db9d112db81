//! Fixed-point trigonometry for the camera: enough of a sine series for the
//! projection's tangent, and an arccosine for the angle of incidence. Each
//! function is pinned to its defining polynomial; the polynomials are
//! truncated Taylor series in micro-radians.

use crate::num::{div_i128, lemma_div_scaled, lemma_mul_bound, lemma_tdiv_bound, tdiv};
use crate::vec3::UNIT;
use vstd::prelude::*;

verus! {

/// Pi and pi over two, in micro-radians.
pub const PI_FP: i64 = 3_141_593;

pub const HALF_PI_FP: i64 = 1_570_796;

/// The truncated sine series `x - x^3/6 + x^5/120 - x^7/5040 + x^9/362880`,
/// each power rescaled to fixed point as it is formed.
pub open spec fn spec_sin_poly(x: int) -> int {
    let u2 = UNIT as int * UNIT;
    let x2 = x * x;
    let p3 = tdiv(x * x2, u2);
    let p5 = tdiv(p3 * x2, u2);
    let p7 = tdiv(p5 * x2, u2);
    let p9 = tdiv(p7 * x2, u2);
    x - tdiv(p3, 6) + tdiv(p5, 120) - tdiv(p7, 5040) + tdiv(p9, 362880)
}

/// `tan(fov / 2)` for a field of view in whole degrees: the angle in
/// micro-radians, then sine over cosine, the cosine computed as the sine of
/// the complementary angle and floored at one to keep the division total.
pub open spec fn spec_tan_half_deg(fov_degrees: int) -> int {
    let x = (fov_degrees * PI_FP) / 360;
    let s = spec_sin_poly(x);
    let craw = spec_sin_poly(HALF_PI_FP - x);
    let c = if craw < 1 {
        1
    } else {
        craw
    };
    tdiv(s * UNIT, c)
}

/// The truncated arccosine series `pi/2 - x - x^3/6 - 3 x^5/40`.
pub open spec fn spec_acos(x: int) -> int {
    let u2 = UNIT as int * UNIT;
    let x2 = x * x;
    let p3 = tdiv(x * x2, u2);
    let p5 = tdiv(p3 * x2, u2);
    HALF_PI_FP - x - tdiv(p3, 6) - tdiv(3 * p5, 40)
}

/// A value bounded by `bq` units of `UNIT^2` divides down to at most `bq`.
proof fn lemma_div_scale_bound(n: int, bq: int)
    requires
        0 <= bq,
        -(bq * 1_000_000_000_000) <= n <= bq * 1_000_000_000_000,
    ensures
        -bq <= tdiv(n, UNIT as int * UNIT) <= bq,
{
    assert(UNIT as int * UNIT == 1_000_000_000_000) by (nonlinear_arith)
        requires
            UNIT == 1_000_000i64,
    ;
    lemma_tdiv_bound(n, 1_000_000_000_000, bq * 1_000_000_000_000);
    lemma_div_scaled(bq, 1, 1_000_000_000_000);
}

/// Evaluate the sine series on `[0, 1.6]` radians.
pub fn sin_poly(x: i64) -> (r: i64)
    requires
        0 <= x <= 1_600_000,
    ensures
        r == spec_sin_poly(x as int),
        -2_400_000 <= r <= 2_400_000,
{
    let u2: i128 = (UNIT as i128) * (UNIT as i128);
    let xw: i128 = x as i128;
    proof {
        assert(u2 == 1_000_000_000_000) by (nonlinear_arith)
            requires
                u2 == (UNIT as i128) * (UNIT as i128),
                UNIT == 1_000_000i64,
        ;
        lemma_mul_bound(x as int, x as int, 1_600_000, 1_600_000);
        lemma_mul_bound(x as int, x as int * x, 1_600_000, 2_560_000_000_000);
        lemma_div_scale_bound(x as int * (x as int * x), 4_100_000);
    }
    let x2: i128 = xw * xw;
    let p3: i128 = div_i128(xw * x2, u2);
    proof {
        lemma_mul_bound(tdiv(x as int * (x as int * x), u2 as int), x as int * x, 4_100_000, 2_560_000_000_000);
        lemma_div_scale_bound(tdiv(x as int * (x as int * x), u2 as int) * (x as int * x), 10_500_000);
    }
    let p5: i128 = div_i128(p3 * x2, u2);
    proof {
        lemma_mul_bound(p5 as int, x as int * x, 10_500_000, 2_560_000_000_000);
        lemma_div_scale_bound(p5 as int * (x as int * x), 26_880_000);
    }
    let p7: i128 = div_i128(p5 * x2, u2);
    proof {
        lemma_mul_bound(p7 as int, x as int * x, 26_880_000, 2_560_000_000_000);
        lemma_div_scale_bound(p7 as int * (x as int * x), 68_813_000);
    }
    let p9: i128 = div_i128(p7 * x2, u2);
    proof {
        lemma_tdiv_bound(p3 as int, 6, 4_100_000);
        lemma_tdiv_bound(p5 as int, 120, 10_500_000);
        lemma_tdiv_bound(p7 as int, 5040, 26_880_000);
        lemma_tdiv_bound(p9 as int, 362880, 68_813_000);
    }
    let r: i128 = xw - div_i128(p3, 6) + div_i128(p5, 120) - div_i128(p7, 5040) + div_i128(
        p9,
        362880,
    );
    r as i64
}

/// The projection half-width for a field of view in degrees.
pub fn tan_half_deg(fov_degrees: u64) -> (r: i64)
    requires
        1 <= fov_degrees <= 179,
    ensures
        r == spec_tan_half_deg(fov_degrees as int),
        -2_400_000_000_000 <= r <= 2_400_000_000_000,
{
    let num: u64 = fov_degrees * (PI_FP as u64);
    proof {
        assert(3_141_593 <= num <= 562_345_147) by (nonlinear_arith)
            requires
                num == fov_degrees as int * 3_141_593,
                1 <= fov_degrees <= 179,
        ;
        vstd::arithmetic::div_mod::lemma_div_is_ordered(num as int, 562_345_147, 360);
        vstd::arithmetic::div_mod::lemma_div_is_ordered(3_141_593, num as int, 360);
        crate::num::lemma_div_le(num as int, 360);
    }
    let x: i64 = (num / 360) as i64;
    let s = sin_poly(x);
    let craw = sin_poly(HALF_PI_FP - x);
    let c: i64 = if craw < 1 {
        1
    } else {
        craw
    };
    proof {
        lemma_mul_bound(s as int, UNIT as int, 2_400_000, UNIT as int);
        lemma_tdiv_bound(s as int * UNIT, c as int, 2_400_000_000_000);
    }
    div_i128((s as i128) * (UNIT as i128), c as i128) as i64
}

/// The angle of incidence from a fixed-point cosine.
pub fn acos_fp(x: i64) -> (r: i64)
    requires
        -4_000_000 <= x <= 4_000_000,
    ensures
        r == spec_acos(x as int),
{
    let u2: i128 = (UNIT as i128) * (UNIT as i128);
    let xw: i128 = x as i128;
    proof {
        assert(u2 == 1_000_000_000_000) by (nonlinear_arith)
            requires
                u2 == (UNIT as i128) * (UNIT as i128),
                UNIT == 1_000_000i64,
        ;
        lemma_mul_bound(x as int, x as int, 4_000_000, 4_000_000);
        lemma_mul_bound(x as int, x as int * x, 4_000_000, 16_000_000_000_000);
        lemma_div_scale_bound(x as int * (x as int * x), 64_000_000);
    }
    let x2: i128 = xw * xw;
    let p3: i128 = div_i128(xw * x2, u2);
    proof {
        lemma_mul_bound(p3 as int, x as int * x, 64_000_000, 16_000_000_000_000);
        lemma_div_scale_bound(p3 as int * (x as int * x), 1_024_000_000);
    }
    let p5: i128 = div_i128(p3 * x2, u2);
    proof {
        lemma_tdiv_bound(p3 as int, 6, 64_000_000);
        lemma_tdiv_bound(3 * p5 as int, 40, 3_072_000_000);
    }
    let r: i128 = (HALF_PI_FP as i128) - xw - div_i128(p3, 6) - div_i128(3 * p5, 40);
    r as i64
}

} // verus!
