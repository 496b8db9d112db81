//! An RGB colour with fixed-point channels in `[0, UNIT]`. The constructor
//! normalises: if any input channel exceeds `UNIT` (one), all three are scaled
//! down by the largest; channels are never scaled up.

use crate::num::{div_i128, lemma_div_scaled, lemma_mul_bound, tdiv};
use crate::vec3::{Vec3, UNIT};
use vstd::arithmetic::div_mod::{lemma_div_is_ordered, lemma_fundamental_div_mod};
use vstd::prelude::*;

verus! {

/// Largest channel value `Colour::new` accepts (one million in real terms),
/// so that `channel * UNIT` fits the 128-bit intermediate comfortably.
pub const CHANNEL_LIMIT: i64 = 1_000_000_000_000;

#[derive(Debug, Clone, Copy, PartialEq, Eq, Structural)]
pub struct Colour(Vec3<i64>);

/// The common denominator `Colour::new` rescales by: the largest of one and
/// the three input channels.
pub open spec fn spec_factor(r: int, g: int, b: int) -> int {
    let m = if r >= g { r } else { g };
    let m = if m >= b { m } else { b };
    if m >= UNIT { m } else { UNIT as int }
}

/// One rescaled channel: `c * UNIT / m`, rounding down.
pub open spec fn spec_channel(c: int, m: int) -> int {
    (c * UNIT) / m
}

/// The three channels of a colour as one spec-level triple.
pub open spec fn rgb(c: Colour) -> (int, int, int) {
    (c.spec_red(), c.spec_green(), c.spec_blue())
}

impl Colour {
    pub closed spec fn spec_red(self) -> int {
        self.0.0 as int
    }

    pub closed spec fn spec_green(self) -> int {
        self.0.1 as int
    }

    pub closed spec fn spec_blue(self) -> int {
        self.0.2 as int
    }

    /// All channels lie in `[0, UNIT]`. This holds of every `Colour` value:
    /// the constructor normalises, and nothing else builds one.
    #[verifier::type_invariant]
    pub open spec fn wf(self) -> bool {
        &&& 0 <= self.spec_red() <= UNIT
        &&& 0 <= self.spec_green() <= UNIT
        &&& 0 <= self.spec_blue() <= UNIT
    }

    /// Create a new colour. All components are normalised to sit in the range
    /// `[0, UNIT]`: if the largest input exceeds `UNIT`, every channel is
    /// divided by it (in fixed point); otherwise the inputs are kept as they
    /// are.
    pub fn new(r: i64, g: i64, b: i64) -> (c: Colour)
        requires
            0 <= r <= CHANNEL_LIMIT,
            0 <= g <= CHANNEL_LIMIT,
            0 <= b <= CHANNEL_LIMIT,
        ensures
            c.spec_red() == spec_channel(r as int, spec_factor(r as int, g as int, b as int)),
            c.spec_green() == spec_channel(g as int, spec_factor(r as int, g as int, b as int)),
            c.spec_blue() == spec_channel(b as int, spec_factor(r as int, g as int, b as int)),
            c.wf(),
            r <= UNIT && g <= UNIT && b <= UNIT ==> c.spec_red() == r && c.spec_green() == g
                && c.spec_blue() == b,
    {
        let m = normalising_factor(r, g, b);
        proof {
            lemma_channel_in_bounds(r as int, m as int);
            lemma_channel_in_bounds(g as int, m as int);
            lemma_channel_in_bounds(b as int, m as int);
            if r <= UNIT && g <= UNIT && b <= UNIT {
                lemma_channel_keeps_small(r as int);
                lemma_channel_keeps_small(g as int);
                lemma_channel_keeps_small(b as int);
            }
        }
        let nr = div_i128((r as i128) * (UNIT as i128), m as i128);
        let ng = div_i128((g as i128) * (UNIT as i128), m as i128);
        let nb = div_i128((b as i128) * (UNIT as i128), m as i128);
        Colour(Vec3(nr as i64, ng as i64, nb as i64))
    }

    pub fn get_red(&self) -> (r: i64)
        ensures
            r == self.spec_red(),
    {
        self.0.0
    }

    pub fn get_green(&self) -> (r: i64)
        ensures
            r == self.spec_green(),
    {
        self.0.1
    }

    pub fn get_blue(&self) -> (r: i64)
        ensures
            r == self.spec_blue(),
    {
        self.0.2
    }
}

/// The factor `Colour::new` divides by: the largest of one (`UNIT`) and the
/// three channels.
pub fn normalising_factor(r: i64, g: i64, b: i64) -> (m: i64)
    ensures
        m == spec_factor(r as int, g as int, b as int),
{
    let m0 = if r >= g {
        r
    } else {
        g
    };
    let m1 = if m0 >= b {
        m0
    } else {
        b
    };
    if m1 >= UNIT {
        m1
    } else {
        UNIT
    }
}

/// The channel-wise product of two channels in `[0, UNIT]`, rescaled by
/// `UNIT`, stays in `[0, UNIT]`.
pub(crate) proof fn lemma_attenuate_bounds(a: int, b: int)
    requires
        0 <= a <= UNIT,
        0 <= b <= UNIT,
    ensures
        0 <= (a * b) / (UNIT as int) <= UNIT,
        tdiv(a * b, UNIT as int) == (a * b) / (UNIT as int),
{
    lemma_mul_bound(a, b, UNIT as int, UNIT as int);
    assert(a * b >= 0) by (nonlinear_arith)
        requires
            0 <= a,
            0 <= b,
    ;
    crate::num::lemma_div_le(a * b, UNIT as int);
    lemma_div_is_ordered(a * b, UNIT as int * UNIT, UNIT as int);
    lemma_div_scaled(UNIT as int, 1, UNIT as int);
}

/// A channel rescaled by a factor at least as large as itself lands in
/// `[0, UNIT]`.
proof fn lemma_channel_in_bounds(c: int, m: int)
    requires
        0 <= c <= m,
        UNIT <= m,
    ensures
        0 <= spec_channel(c, m) <= UNIT,
        tdiv(c * UNIT, m) == spec_channel(c, m),
{
    lemma_mul_bound(c, UNIT as int, m, UNIT as int);
    crate::num::lemma_div_le(c * UNIT, m);
    lemma_div_is_ordered(c * UNIT, m * UNIT, m);
    lemma_div_scaled(UNIT as int, 1, m);
    assert(UNIT as int * m == m * UNIT) by (nonlinear_arith);
    assert(c * UNIT >= 0) by (nonlinear_arith)
        requires
            c >= 0,
    ;
}

/// When no input exceeds `UNIT`, the factor is `UNIT` and rescaling is the
/// identity.
proof fn lemma_channel_keeps_small(c: int)
    requires
        0 <= c,
    ensures
        spec_channel(c, UNIT as int) == c,
{
    lemma_div_scaled(c, 1, UNIT as int);
}

/// The normalisation in `Colour::new` preserves the ratios between channels
/// up to the floor rounding of fixed-point division: each output channel `q`
/// satisfies `q * m <= input * UNIT < (q + 1) * m` for the one shared factor
/// `m`, so every channel is scaled by the same amount, and every output is at
/// most `UNIT` (one).
pub proof fn lemma_new_rescales_uniformly(r: int, g: int, b: int)
    requires
        0 <= r,
        0 <= g,
        0 <= b,
    ensures
        spec_channel(r, spec_factor(r, g, b)) * spec_factor(r, g, b) <= r * UNIT < (spec_channel(
            r,
            spec_factor(r, g, b),
        ) + 1) * spec_factor(r, g, b),
        spec_channel(g, spec_factor(r, g, b)) * spec_factor(r, g, b) <= g * UNIT < (spec_channel(
            g,
            spec_factor(r, g, b),
        ) + 1) * spec_factor(r, g, b),
        spec_channel(b, spec_factor(r, g, b)) * spec_factor(r, g, b) <= b * UNIT < (spec_channel(
            b,
            spec_factor(r, g, b),
        ) + 1) * spec_factor(r, g, b),
        0 <= spec_channel(r, spec_factor(r, g, b)) <= UNIT,
        0 <= spec_channel(g, spec_factor(r, g, b)) <= UNIT,
        0 <= spec_channel(b, spec_factor(r, g, b)) <= UNIT,
{
    let m = spec_factor(r, g, b);
    lemma_floor_bracket(r, m);
    lemma_floor_bracket(g, m);
    lemma_floor_bracket(b, m);
    lemma_channel_in_bounds(r, m);
    lemma_channel_in_bounds(g, m);
    lemma_channel_in_bounds(b, m);
}

/// The floor characterisation of one rescaled channel.
proof fn lemma_floor_bracket(c: int, m: int)
    requires
        0 <= c,
        1 <= m,
    ensures
        spec_channel(c, m) * m <= c * UNIT < (spec_channel(c, m) + 1) * m,
{
    let q = spec_channel(c, m);
    assert(c * UNIT >= 0) by (nonlinear_arith)
        requires
            c >= 0,
    ;
    lemma_fundamental_div_mod(c * UNIT, m);
    let rem = (c * UNIT) % m;
    assert(c * UNIT == q * m + rem) by (nonlinear_arith)
        requires
            c * UNIT == m * ((c * UNIT) / m) + (c * UNIT) % m,
            q == (c * UNIT) / m,
            rem == (c * UNIT) % m,
    ;
    assert((q + 1) * m == q * m + m) by (nonlinear_arith);
}

} // verus!
