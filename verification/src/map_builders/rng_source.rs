use vstd::prelude::*;

verus! {

#[verifier::external_type_specification]
#[verifier::external_body]
pub struct ExStdRng(rand::rngs::StdRng);

/// Relies on rand's `SeedableRng::seed_from_u64`: builds a `StdRng` stream
/// from a 64-bit seed.
#[verifier::external_body]
pub fn rng_from_seed(seed: u64) -> rand::rngs::StdRng {
    <rand::rngs::StdRng as rand::SeedableRng>::seed_from_u64(seed)
}

/// Relies on rand's `random`: a value drawn from the thread-local generator;
/// nothing can be promised of the outcome.
pub assume_specification<T>[ rand::random::<T> ]() -> (r: T)
    where
        rand::distributions::Standard: rand::distributions::Distribution<T>,
;

/// Relies on rand's `Rng::gen_range` over a half-open `i32` range: the result
/// lies in `[lo, hi)`, and the call panics only on an empty range, which the
/// precondition rules out.
#[verifier::external_body]
pub fn gen_range_i32(rng: &mut rand::rngs::StdRng, lo: i32, hi: i32) -> (r: i32)
    requires
        lo < hi,
    ensures
        lo <= r < hi,
{
    rand::Rng::gen_range(rng, lo..hi)
}

/// Relies on rand's `Rng::gen_range` over a half-open `usize` range: the
/// result lies in `[lo, hi)`, as the `i32` wrapper does.
#[verifier::external_body]
pub fn gen_range_usize(rng: &mut rand::rngs::StdRng, lo: usize, hi: usize) -> (r: usize)
    requires
        lo < hi,
    ensures
        lo <= r < hi,
{
    rand::Rng::gen_range(rng, lo..hi)
}

/// Relies on rand's `Rng::gen` at type `bool`: an unbiased coin flip; nothing
/// can be promised of the outcome.
#[verifier::external_body]
pub fn gen_coin_flip(rng: &mut rand::rngs::StdRng) -> bool {
    rand::Rng::gen(rng)
}

} // verus!
