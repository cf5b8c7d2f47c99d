//! The seeded generator that every random choice of a simulation is drawn from.
//!
//! A simulation is reproducible because each of its random choices is a
//! function of a seed and of the draws made before it. This module states that
//! of `rand`'s `StdRng`: a generator is known by its state, a sequence of words,
//! and each draw maps a state to a value and the state after it.

use rand::rngs::StdRng;
use rand::Rng;
use rand::SeedableRng;
use vstd::prelude::*;

verus! {

/// `rand::rngs::StdRng`, opaque: only its state, [`rng_state`], is spoken of.
#[verifier::external_type_specification]
#[verifier::external_body]
pub struct ExStdRng(StdRng);

/// What a generator holds: the words of its key, its block counter and the
/// words of the current block that were not handed out yet.
pub uninterp spec fn rng_state(rng: StdRng) -> Seq<u32>;

/// The state that `StdRng::seed_from_u64` sets up for a seed.
pub uninterp spec fn seeded_state(seed: u64) -> Seq<u32>;

/// What `Rng::gen::<u32>` draws in a state, and the state after the draw.
pub uninterp spec fn word32_draw(state: Seq<u32>) -> (u32, Seq<u32>);

/// What `Rng::gen::<u64>` draws in a state, and the state after the draw.
pub uninterp spec fn word64_draw(state: Seq<u32>) -> (u64, Seq<u32>);

/// What `Rng::gen_range` draws in a state from the `u32` values from `low`
/// to `high`, both included, and the state after the draw.
pub uninterp spec fn range32_draw(state: Seq<u32>, low: u32, high: u32) -> (u32, Seq<u32>);

/// What `Rng::gen_range` draws in a state from the `u64` values from `low`
/// to `high`, both included, and the state after the draw.
pub uninterp spec fn range64_draw(state: Seq<u32>, low: u64, high: u64) -> (u64, Seq<u32>);

/// What `Rng::gen_ratio` draws in a state for a chance of `numerator` in
/// `denominator`, and the state after the draw.
pub uninterp spec fn ratio_draw(state: Seq<u32>, numerator: u32, denominator: u32) -> (bool, Seq<u32>);

/// `<StdRng as SeedableRng>::seed_from_u64`. The state of the new generator is a
/// function of the seed.
#[verifier::external_body]
pub(crate) fn seed_rng(seed: u64) -> (rng: StdRng)
    ensures
        rng_state(rng) == seeded_state(seed),
{
    StdRng::seed_from_u64(seed)
}

/// `Rng::gen::<u32>` on a `StdRng`. The value and the state after the draw are
/// functions of the state before it.
#[verifier::external_body]
pub(crate) fn draw_word32(rng: &mut StdRng) -> (value: u32)
    ensures
        (value, rng_state(*final(rng))) == word32_draw(rng_state(*old(rng))),
{
    rng.gen::<u32>()
}

/// `Rng::gen::<u64>` on a `StdRng`. The value and the state after the draw are
/// functions of the state before it.
#[verifier::external_body]
pub(crate) fn draw_word64(rng: &mut StdRng) -> (value: u64)
    ensures
        (value, rng_state(*final(rng))) == word64_draw(rng_state(*old(rng))),
{
    rng.gen::<u64>()
}

/// `Rng::gen_range` on a `StdRng` and the range `low..=high` of `u32`. The value
/// lies in the range; it and the state after the draw are functions of the
/// state before it and of the range. The call panics on an empty range.
#[verifier::external_body]
pub(crate) fn draw_range32(rng: &mut StdRng, low: u32, high: u32) -> (value: u32)
    requires
        low <= high,
    ensures
        low <= value <= high,
        (value, rng_state(*final(rng))) == range32_draw(rng_state(*old(rng)), low, high),
{
    rng.gen_range(low..=high)
}

/// `Rng::gen_range` on a `StdRng` and the range `low..=high` of `u64`. The value
/// lies in the range; it and the state after the draw are functions of the
/// state before it and of the range. The call panics on an empty range.
#[verifier::external_body]
pub(crate) fn draw_range64(rng: &mut StdRng, low: u64, high: u64) -> (value: u64)
    requires
        low <= high,
    ensures
        low <= value <= high,
        (value, rng_state(*final(rng))) == range64_draw(rng_state(*old(rng)), low, high),
{
    rng.gen_range(low..=high)
}

/// `Rng::gen_ratio` on a `StdRng`. The answer and the state after the draw are
/// functions of the state before it and of the ratio; a ratio of zero never
/// gives `true` and a ratio of one always does. The call panics when the
/// denominator is zero or below the numerator.
#[verifier::external_body]
pub(crate) fn draw_ratio(rng: &mut StdRng, numerator: u32, denominator: u32) -> (hit: bool)
    requires
        0 < denominator,
        numerator <= denominator,
    ensures
        numerator == 0 ==> !hit,
        numerator == denominator ==> hit,
        (hit, rng_state(*final(rng))) == ratio_draw(rng_state(*old(rng)), numerator, denominator),
{
    rng.gen_ratio(numerator, denominator)
}

/// A generator for a seed.
pub fn seeded(seed: u64) -> (rng: StdRng)
    ensures
        rng_state(rng) == seeded_state(seed),
{
    seed_rng(seed)
}

} // verus!
