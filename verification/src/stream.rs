//! The pseudo-random stream that drives every mutation.
//!
//! The generator itself is `rand_pcg::Pcg32`, sampled through the `rand`
//! crate. Verus does not look inside either crate: the functions marked
//! `external_body` below are believed, not proved. Each of them states only
//! what holds of every value the generator can hand out, so everything built
//! on top is verified for all possible streams.

use vstd::prelude::*;
use rand::distributions::Uniform;
use rand::Rng;
use rand::RngCore;
use rand::SeedableRng;
pub use rand_pcg::Pcg32;

verus! {

/// `rand_pcg::Lcg64Xsh32` (also exported as `Pcg32`): an opaque generator
/// state that is only ever passed on to the sampling functions below.
#[verifier::external_type_specification]
#[verifier::external_body]
pub struct ExLcg64Xsh32(rand_pcg::Lcg64Xsh32);

/// One on the scale of probability draws: a draw `k` stands for the
/// probability `k / 2^53`.
pub const FRACTION_ONE: u64 = 0x20_0000_0000_0000;

/// `limit` is the largest draw that does not exceed the probability
/// `numerator / denominator`. A draw is compared with such a limit by `<=`.
pub open spec fn is_limit_for(limit: u64, numerator: int, denominator: int) -> bool {
    denominator * limit <= numerator * FRACTION_ONE < denominator * (limit + 1)
}

/// Calls `SeedableRng::seed_from_u64` of `Pcg32`. Nothing is claimed of the
/// generator that comes back.
#[verifier::external_body]
pub(crate) fn seeded(seed: u64) -> (rng: Pcg32) {
    Pcg32::seed_from_u64(seed)
}

/// Calls `RngCore::next_u64`. Any 64-bit word may come back, so nothing is
/// claimed of it.
#[verifier::external_body]
pub(crate) fn next_word(rng: &mut Pcg32) -> (word: u64) {
    rng.next_u64()
}

/// Samples `Uniform::new_inclusive(low, high)` for `i64`. The constructor
/// panics when `low > high`, which the precondition rules out; the sample lies
/// in the closed range.
#[verifier::external_body]
pub(crate) fn uniform_i64(rng: &mut Pcg32, low: i64, high: i64) -> (value: i64)
    requires
        low <= high,
    ensures
        low <= value <= high,
{
    rng.sample(Uniform::new_inclusive(low, high))
}

/// Samples `Uniform::new_inclusive(low, high)` for `u64`. The constructor
/// panics when `low > high`, which the precondition rules out; the sample lies
/// in the closed range.
#[verifier::external_body]
pub(crate) fn uniform_u64(rng: &mut Pcg32, low: u64, high: u64) -> (value: u64)
    requires
        low <= high,
    ensures
        low <= value <= high,
{
    rng.sample(Uniform::new_inclusive(low, high))
}

/// Samples `Uniform::new_inclusive(low, high)` for `i8`. The constructor
/// panics when `low > high`, which the precondition rules out; the sample lies
/// in the closed range.
#[verifier::external_body]
pub(crate) fn uniform_i8(rng: &mut Pcg32, low: i8, high: i8) -> (value: i8)
    requires
        low <= high,
    ensures
        low <= value <= high,
{
    rng.sample(Uniform::new_inclusive(low, high))
}

/// Samples `Uniform::new_inclusive(low, high)` for `usize`. The constructor
/// panics when `low > high`, which the precondition rules out; the sample lies
/// in the closed range.
#[verifier::external_body]
pub(crate) fn uniform_len(rng: &mut Pcg32, low: usize, high: usize) -> (value: usize)
    requires
        low <= high,
    ensures
        low <= value <= high,
{
    rng.sample(Uniform::new_inclusive(low, high))
}

/// Samples `Uniform::new(low, high)` for `usize`. The constructor panics when
/// `low >= high`, which the precondition rules out; the sample lies in the
/// half-open range.
#[verifier::external_body]
pub(crate) fn uniform_index(rng: &mut Pcg32, low: usize, high: usize) -> (value: usize)
    requires
        low < high,
    ensures
        low <= value < high,
{
    rng.sample(Uniform::new(low, high))
}

/// Samples `Uniform::new(low, high)` for `i32`. The constructor panics when
/// `low >= high`, which the precondition rules out; the sample lies in the
/// half-open range.
#[verifier::external_body]
pub(crate) fn uniform_i32(rng: &mut Pcg32, low: i32, high: i32) -> (value: i32)
    requires
        low < high,
    ensures
        low <= value < high,
{
    rng.sample(Uniform::new(low, high))
}

/// Calls `RngCore::fill_bytes` on the whole of `dest`. The generator
/// overwrites the bytes in place, so the length stays; nothing is claimed of
/// the bytes themselves.
#[verifier::external_body]
pub(crate) fn fill_bytes(rng: &mut Pcg32, dest: &mut Vec<u8>)
    ensures
        final(dest)@.len() == old(dest)@.len(),
{
    rng.fill_bytes(dest)
}

/// The probability that a word of the stream stands for: its top 53 bits,
/// read as the fraction `k / 2^53` in `[0, 1)`.
pub fn fraction_of(word: u64) -> (k: u64)
    ensures
        k == word / 2048,
        k < FRACTION_ONE,
{
    let k: u64 = word >> 11;
    assert(word >> 11 == word / 2048) by (bit_vector);
    k
}

/// Draws a probability from the next word of the stream.
pub fn draw_fraction(rng: &mut Pcg32) -> (k: u64)
    ensures
        k < FRACTION_ONE,
{
    fraction_of(next_word(rng))
}

} // verus!
