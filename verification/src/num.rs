//! Shared integer arithmetic: the floor square root and the truncating
//! division that the fixed-point geometry is written with.

use vstd::arithmetic::div_mod::{lemma_div_is_ordered, lemma_fundamental_div_mod_converse};
use vstd::prelude::*;

verus! {

/// Floor of the square root of `n` (0 for negative `n`).
pub open spec fn spec_isqrt(n: int) -> int
    decreases n,
{
    if n <= 0 {
        0
    } else {
        let r = spec_isqrt(n - 1);
        if (r + 1) * (r + 1) <= n {
            r + 1
        } else {
            r
        }
    }
}

/// Division truncating toward zero, the rounding Rust's `/` uses; the spec
/// operator `/` on `int` is Euclidean, so negative numerators differ there.
pub open spec fn tdiv(n: int, d: int) -> int {
    if n >= 0 {
        n / d
    } else {
        -((-n) / d)
    }
}

/// `x * y` is bounded by the product of bounds on `x` and `y`.
pub proof fn lemma_mul_bound(x: int, y: int, bx: int, by: int)
    by (nonlinear_arith)
    requires
        -bx <= x <= bx,
        -by <= y <= by,
        0 <= bx,
        0 <= by,
    ensures
        -(bx * by) <= x * y <= bx * by,
{
}

/// `spec_isqrt(n)` is the unique `r >= 0` with `r * r <= n < (r + 1) * (r + 1)`.
pub proof fn lemma_isqrt_bracket(n: int)
    requires
        n >= 0,
    ensures
        spec_isqrt(n) >= 0,
        spec_isqrt(n) * spec_isqrt(n) <= n,
        n < (spec_isqrt(n) + 1) * (spec_isqrt(n) + 1),
    decreases n,
{
    if n > 0 {
        lemma_isqrt_bracket(n - 1);
        let r = spec_isqrt(n - 1);
        if (r + 1) * (r + 1) <= n {
            assert(n == (r + 1) * (r + 1)) by {
                assert(n - 1 < (r + 1) * (r + 1));
            }
            assert((r + 1) * (r + 1) < (r + 2) * (r + 2)) by (nonlinear_arith)
                requires
                    r >= 0,
            ;
        }
    }
}

pub proof fn lemma_isqrt_unique(n: int, r: int)
    requires
        n >= 0,
        r >= 0,
        r * r <= n,
        n < (r + 1) * (r + 1),
    ensures
        r == spec_isqrt(n),
{
    lemma_isqrt_bracket(n);
    let s = spec_isqrt(n);
    if r < s {
        assert((r + 1) * (r + 1) <= s * s) by (nonlinear_arith)
            requires
                0 <= r,
                r < s,
        ;
    }
    if s < r {
        assert((s + 1) * (s + 1) <= r * r) by (nonlinear_arith)
            requires
                0 <= s,
                s < r,
        ;
    }
}

/// The square root is monotone.
pub proof fn lemma_isqrt_ordered(m: int, n: int)
    requires
        0 <= m <= n,
    ensures
        spec_isqrt(m) <= spec_isqrt(n),
{
    lemma_isqrt_bracket(m);
    lemma_isqrt_bracket(n);
    let a = spec_isqrt(m);
    let b = spec_isqrt(n);
    if b < a {
        assert((b + 1) * (b + 1) <= a * a) by (nonlinear_arith)
            requires
                0 <= b,
                b < a,
        ;
    }
}

/// Floor square root by binary search over the answer.
pub fn isqrt_u128(n: u128) -> (r: u64)
    ensures
        r == spec_isqrt(n as int),
{
    let mut lo: u64 = 0;
    let mut hi: u64 = u64::MAX;
    proof {
        assert((hi as int + 1) * (hi as int + 1) > n as int) by (nonlinear_arith)
            requires
                hi == u64::MAX,
                n <= u128::MAX,
        ;
    }
    while lo < hi
        invariant
            lo <= hi,
            (lo as int) * (lo as int) <= n as int,
            (n as int) < (hi as int + 1) * (hi as int + 1),
        decreases hi - lo,
    {
        let mid: u64 = hi - (hi - lo) / 2;
        proof {
            lemma_mul_bound(mid as int, mid as int, u64::MAX as int, u64::MAX as int);
        }
        let m2: u128 = (mid as u128) * (mid as u128);
        if m2 <= n {
            lo = mid;
        } else {
            hi = mid - 1;
        }
    }
    proof {
        lemma_isqrt_unique(n as int, lo as int);
    }
    lo
}

/// Division of `n` by a positive `d`, truncating toward zero as Rust's `/` does.
pub fn div_i128(n: i128, d: i128) -> (r: i128)
    requires
        1 <= d,
        i128::MIN < n,
    ensures
        r == tdiv(n as int, d as int),
{
    if n >= 0 {
        let q: u128 = (n as u128) / (d as u128);
        proof {
            lemma_div_le(n as int, d as int);
        }
        q as i128
    } else {
        let m: i128 = -n;
        let q: u128 = (m as u128) / (d as u128);
        proof {
            lemma_div_le(m as int, d as int);
        }
        -(q as i128)
    }
}

/// For `n >= 0`, `d >= 1`: the quotient is between 0 and `n`.
pub proof fn lemma_div_le(n: int, d: int)
    requires
        0 <= n,
        1 <= d,
    ensures
        0 <= n / d <= n,
{
    assert(0 <= n / d <= n) by (nonlinear_arith)
        requires
            0 <= n,
            1 <= d,
    ;
}

/// Truncating division keeps the magnitude bound of the numerator.
pub proof fn lemma_tdiv_bound(n: int, d: int, b: int)
    requires
        1 <= d,
        0 <= b,
        -b <= n <= b,
    ensures
        -(b / d) <= tdiv(n, d) <= b / d,
        -b <= tdiv(n, d) <= b,
{
    if n >= 0 {
        lemma_div_le(n, d);
        lemma_div_is_ordered(n, b, d);
        lemma_div_le(b, d);
    } else {
        lemma_div_le(-n, d);
        lemma_div_is_ordered(-n, b, d);
        lemma_div_le(b, d);
    }
}

/// Scaling the numerator and denominator by the same positive factor keeps
/// the Euclidean quotient.
pub proof fn lemma_div_scaled(a: int, b: int, x: int)
    requires
        0 <= a,
        1 <= b,
        1 <= x,
    ensures
        (a * x) / (b * x) == a / b,
{
    let q = a / b;
    let r = a % b;
    vstd::arithmetic::div_mod::lemma_fundamental_div_mod(a, b);
    assert(a * x == q * (b * x) + r * x) by (nonlinear_arith)
        requires
            a == q * b + r,
    ;
    assert(0 <= r * x < b * x) by (nonlinear_arith)
        requires
            0 <= r < b,
            1 <= x,
    ;
    lemma_fundamental_div_mod_converse(a * x, b * x, q, r * x);
}

} // verus!
