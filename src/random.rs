//! The random source of a run and the draws the simulation makes from it.

use rand::rngs::StdRng;
use rand::seq::SliceRandom;
use rand::Rng;
use vstd::prelude::*;

verus! {

/// rand's `rngs::StdRng`, the seedable generator a run draws from, opaque
/// here: the same seed gives the same stream of draws.
#[verifier::external_type_specification]
#[verifier::external_body]
pub struct ExStdRng(StdRng);

/// Relies on rand's `Rng::gen_range` over `0..n`: a value below `n`
/// (it panics on an empty range, which `requires` leaves out).
#[verifier::external_body]
pub(crate) fn draw_below(rng: &mut StdRng, n: usize) -> (r: usize)
    requires
        n > 0,
    ensures
        r < n,
{
    rng.gen_range(0..n)
}

/// Relies on rand's `Rng::gen_range` over `lo..=hi`: a value from `lo` to
/// `hi` inclusive (it panics on an empty range, which `requires` leaves out).
#[verifier::external_body]
pub(crate) fn draw_between(rng: &mut StdRng, lo: u64, hi: u64) -> (r: u64)
    requires
        lo <= hi,
    ensures
        lo <= r <= hi,
{
    rng.gen_range(lo..=hi)
}

/// Relies on rand's `SliceRandom::choose`: `None` exactly when the slice is
/// empty, otherwise one of its elements.
#[verifier::external_body]
pub(crate) fn choose_one(rng: &mut StdRng, items: &Vec<u64>) -> (r: Option<u64>)
    ensures
        r is None <==> items@.len() == 0,
        r matches Some(x) ==> items@.contains(x),
{
    items.choose(rng).copied()
}

/// A time to the next arrival drawn uniformly from `min_gap` to `max_gap`
/// (inclusive), the flat arrival process.
pub fn uniform_gap(rng: &mut StdRng, min_gap: u64, max_gap: u64) -> (r: u64)
    requires
        min_gap <= max_gap,
    ensures
        min_gap <= r <= max_gap,
{
    draw_between(rng, min_gap, max_gap)
}

} // verus!
