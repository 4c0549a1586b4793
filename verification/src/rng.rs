//! Trusted boundary around the outside sources of randomness and names.
//!
//! Every random draw the simulator makes goes through one of the wrappers
//! below, so the whole run is a deterministic function of the master seed.

use vstd::prelude::*;

verus! {

#[verifier::external_type_specification]
#[verifier::external_body]
pub struct ExChaCha8Rng(rand_chacha::ChaCha8Rng);

/// Relies on rand_chacha's `ChaCha8Rng` and rand's `SeedableRng::seed_from_u64`:
/// builds a generator whose stream is a function of the seed alone.
#[verifier::external_body]
pub(crate) fn rng_from_seed(seed: u64) -> rand_chacha::ChaCha8Rng {
    <rand_chacha::ChaCha8Rng as rand::SeedableRng>::seed_from_u64(seed)
}

/// Relies on rand's `RngCore::next_u64`. Nothing is promised of the value.
#[verifier::external_body]
pub(crate) fn rng_next_u64(rng: &mut rand_chacha::ChaCha8Rng) -> u64 {
    rand::RngCore::next_u64(rng)
}

/// Relies on rand's `Rng::random_range` over `0..n`: it panics on an empty
/// range and otherwise samples uniformly within the range.
#[verifier::external_body]
pub(crate) fn rng_index(rng: &mut rand_chacha::ChaCha8Rng, n: usize) -> (r: usize)
    requires
        n > 0,
    ensures
        r < n,
{
    rand::Rng::random_range(rng, 0..n)
}

/// Relies on rand's `Rng::random_range` over `lo..=hi`: it panics on an empty
/// range and otherwise samples uniformly within the range.
#[verifier::external_body]
pub(crate) fn rng_i64_between(rng: &mut rand_chacha::ChaCha8Rng, lo: i64, hi: i64) -> (r: i64)
    requires
        lo <= hi,
    ensures
        lo <= r <= hi,
{
    rand::Rng::random_range(rng, lo..=hi)
}

/// Relies on rand's `Rng::random_range` over `lo..=hi` at `u64`, as above.
#[verifier::external_body]
pub(crate) fn rng_u64_between(rng: &mut rand_chacha::ChaCha8Rng, lo: u64, hi: u64) -> (r: u64)
    requires
        lo <= hi,
    ensures
        lo <= r <= hi,
{
    rand::Rng::random_range(rng, lo..=hi)
}

/// Relies on rand's `Rng::random_ratio`, built on `Bernoulli::from_ratio`:
/// true with probability `num/den`; always false when `num == 0` and always
/// true when `num == den`; panics when `den == 0` or `num > den`.
#[verifier::external_body]
pub(crate) fn rng_ratio(rng: &mut rand_chacha::ChaCha8Rng, num: u32, den: u32) -> (r: bool)
    requires
        den > 0,
        num <= den,
    ensures
        num == 0 ==> !r,
        num == den ==> r,
{
    rand::Rng::random_ratio(rng, num, den)
}

/// Relies on `readable_name_custom` from anarchist-readable-name-generator-lib:
/// an adjective and a name from its fixed word lists, joined by `_`. The word
/// lists are not constrained, so nothing is promised of the bytes; callers
/// filter what they need.
#[verifier::external_body]
pub(crate) fn readable_name(rng: &mut rand_chacha::ChaCha8Rng) -> Vec<u8> {
    anarchist_readable_name_generator_lib::readable_name_custom("_", &mut *rng).into_bytes()
}

} // verus!
