//! The crate's only randomness: rand's `SmallRng`, held behind trusted
//! wrappers. Every render call seeds its own generators, so region renders
//! stay independent and deterministic under a caller-supplied seed.

use rand::Rng;
use rand::SeedableRng;
use vstd::prelude::*;

verus! {

#[verifier::external_type_specification]
#[verifier::external_body]
pub struct ExSmallRng(rand::rngs::SmallRng);

/// Relies on rand's `SmallRng::seed_from_u64`: it never panics and
/// constructs a generator from the seed alone.
#[verifier::external_body]
pub(crate) fn rng_from_seed(seed: u64) -> rand::rngs::SmallRng {
    rand::rngs::SmallRng::seed_from_u64(seed)
}

/// Relies on rand's `Rng::gen_range` over an inclusive `i64` range: it
/// panics only on an empty range, and every value it returns lies within the
/// range.
#[verifier::external_body]
pub(crate) fn rng_range(rng: &mut rand::rngs::SmallRng, lo: i64, hi: i64) -> (r: i64)
    requires
        lo <= hi,
    ensures
        lo <= r <= hi,
{
    rng.gen_range(lo..=hi)
}

/// Relies on rand's `thread_rng`: an arbitrary word of entropy, used only to
/// seed renders whose caller supplied no seed.
#[verifier::external_body]
pub(crate) fn entropy_seed() -> u64 {
    rand::thread_rng().gen()
}

/// The seed of one pixel sample's generator: the render seed mixed with the
/// sample's absolute position by multiply-and-xor-shift steps. A function of
/// its four arguments alone.
pub open spec fn spec_mix_seed(seed: u64, i: u64, j: u64, sample: u64) -> u64 {
    let x = seed.wrapping_add(i.wrapping_mul(0x9e37_79b9_7f4a_7c15)).wrapping_add(
        j.wrapping_mul(0xbf58_476d_1ce4_e5b9),
    ).wrapping_add(sample.wrapping_mul(0x94d0_49bb_1331_11eb));
    let x = (x ^ (x >> 30)).wrapping_mul(0xbf58_476d_1ce4_e5b9);
    let x = (x ^ (x >> 27)).wrapping_mul(0x94d0_49bb_1331_11eb);
    x ^ (x >> 31)
}

/// Derive the seed of one pixel sample's generator from the render seed and
/// the sample's absolute position, so a region render draws exactly the
/// numbers the full-frame render draws for the same pixel.
pub(crate) fn mix_seed(seed: u64, i: u64, j: u64, sample: u64) -> (r: u64)
    ensures
        r == spec_mix_seed(seed, i, j, sample),
{
    let mut x: u64 = seed;
    x = x.wrapping_add(i.wrapping_mul(0x9e37_79b9_7f4a_7c15));
    x = x.wrapping_add(j.wrapping_mul(0xbf58_476d_1ce4_e5b9));
    x = x.wrapping_add(sample.wrapping_mul(0x94d0_49bb_1331_11eb));
    x = (x ^ (x >> 30)).wrapping_mul(0xbf58_476d_1ce4_e5b9);
    x = (x ^ (x >> 27)).wrapping_mul(0x94d0_49bb_1331_11eb);
    x ^ (x >> 31)
}

} // verus!
