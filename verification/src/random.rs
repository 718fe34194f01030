//! Random numbers, drawn from the generators of the `rand` crate.
use rand::rngs::SmallRng;
use rand::Rng;
use rand::SeedableRng;
use vstd::prelude::*;

verus! {

/// The small generator of `rand`.
#[verifier::external_type_specification]
#[verifier::external_body]
pub struct ExSmallRng(rand::rngs::SmallRng);

/// `SeedableRng::seed_from_u64`: a generator that starts from the seed. Which numbers
/// it gives depends on the platform, so nothing is said of them.
#[verifier::external_body]
pub(crate) fn seeded(seed: u64) -> (r: SmallRng) {
    SmallRng::seed_from_u64(seed)
}

/// `SmallRng::clone`: a generator in the same state. Nothing is said of what either of the
/// two draws.
#[verifier::external_body]
pub(crate) fn twin(rng: &SmallRng) -> (r: SmallRng) {
    rng.clone()
}

/// `Rng::random_range` on `usize`: some number from `low` up to, not including, `high`.
/// It panics on an empty range.
#[verifier::external_body]
pub(crate) fn draw_index(rng: &mut SmallRng, low: usize, high: usize) -> (r: usize)
    requires
        low < high,
    ensures
        low <= r < high,
{
    rng.random_range(low..high)
}

/// `Rng::random_range` on `u32`: some number from `low` up to, not including, `high`.
/// It panics on an empty range.
#[verifier::external_body]
pub(crate) fn draw_weight(rng: &mut SmallRng, low: u32, high: u32) -> (r: u32)
    requires
        low < high,
    ensures
        low <= r < high,
{
    rng.random_range(low..high)
}

/// `Rng::random_range` on `u8`: some number from `low` up to, not including, `high`.
/// It panics on an empty range.
#[verifier::external_body]
pub(crate) fn draw_choice(rng: &mut SmallRng, low: u8, high: u8) -> (r: u8)
    requires
        low < high,
    ensures
        low <= r < high,
{
    rng.random_range(low..high)
}

/// `Rng::random_range` on `u64`: some number from `low` up to, not including, `high`.
/// It panics on an empty range.
#[verifier::external_body]
pub(crate) fn draw_percent(rng: &mut SmallRng, low: u64, high: u64) -> (r: u64)
    requires
        low < high,
    ensures
        low <= r < high,
{
    rng.random_range(low..high)
}

/// `Rng::random` on `u8`: some byte.
#[verifier::external_body]
pub(crate) fn draw_byte(rng: &mut SmallRng) -> (r: u8) {
    rng.random()
}

/// `Rng::random_range` on the generator of the thread, from `rand::rng`: some number
/// from `low` to `high`, both included. It panics on an empty range, and, at its first
/// use in a thread, where the system gives no entropy to seed the generator with.
#[verifier::external_body]
pub(crate) fn draw_between(low: u64, high: u64) -> (r: u64)
    requires
        low <= high,
    ensures
        low <= r <= high,
{
    rand::rng().random_range(low..=high)
}

} // verus!
