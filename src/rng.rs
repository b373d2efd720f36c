//! Random draws, delegated to `rand`'s standard generator.
use rand::rngs::StdRng;
use rand::{Rng, SeedableRng};
use vstd::prelude::*;

verus! {

/// What a generator built by `StdRng::seed_from_u64(seed)` yields when it draws,
/// in order, one value from each inclusive range `low[i] ..= high[i]`.
pub uninterp spec fn seeded_draws(seed: u64, low: Seq<i32>, high: Seq<i32>) -> Seq<i32>;

/// What a generator built by `StdRng::seed_from_u64(seed)` yields on its first
/// draw from `0 .. n`, drawn as a `u64`.
pub uninterp spec fn seeded_index(seed: u64, n: usize) -> usize;

/// Relies on `StdRng::seed_from_u64` and `Rng::gen_range` over `i32`: the
/// generator is a function of the seed, and each draw lies within its range
/// (`gen_range` panics only on an empty range, which `requires` leaves out).
#[verifier::external_body]
pub(crate) fn draw_seeded(seed: u64, low: &Vec<i32>, high: &Vec<i32>) -> (r: Vec<i32>)
    requires
        low.len() == high.len(),
        forall|i: int| 0 <= i < low.len() ==> low[i] <= high[i],
    ensures
        r@ == seeded_draws(seed, low@, high@),
        r.len() == low.len(),
        forall|i: int| 0 <= i < r.len() ==> low[i] <= #[trigger] r[i] <= high[i],
{
    let mut rng = StdRng::seed_from_u64(seed);
    low.iter().zip(high.iter()).map(|(l, h)| rng.gen_range(*l..=*h)).collect()
}

/// Relies on `StdRng::seed_from_u64` and `Rng::gen_range` over `u64` (the same
/// draw on every word size): the draw is a function of the seed and the bound,
/// and lies in `0 .. n`.
#[verifier::external_body]
pub(crate) fn draw_index_seeded(seed: u64, n: usize) -> (r: usize)
    requires
        n > 0,
    ensures
        r == seeded_index(seed, n),
        r < n,
{
    StdRng::seed_from_u64(seed).gen_range(0..n as u64) as usize
}

/// Relies on `StdRng::from_entropy` and `Rng::gen_range` over `i32`: one draw
/// per inclusive range, each within its range. `from_entropy` panics only when
/// the operating system's random source fails.
#[verifier::external_body]
pub(crate) fn draw_fresh(low: &Vec<i32>, high: &Vec<i32>) -> (r: Vec<i32>)
    requires
        low.len() == high.len(),
        forall|i: int| 0 <= i < low.len() ==> low[i] <= high[i],
    ensures
        r.len() == low.len(),
        forall|i: int| 0 <= i < r.len() ==> low[i] <= #[trigger] r[i] <= high[i],
{
    let mut rng = StdRng::from_entropy();
    low.iter().zip(high.iter()).map(|(l, h)| rng.gen_range(*l..=*h)).collect()
}

/// Relies on `StdRng::from_entropy` and `Rng::gen_range` over `usize`: the draw
/// lies in `0 .. n`. `from_entropy` panics only when the operating system's
/// random source fails.
#[verifier::external_body]
pub(crate) fn draw_index_fresh(n: usize) -> (r: usize)
    requires
        n > 0,
    ensures
        r < n,
{
    StdRng::from_entropy().gen_range(0..n)
}

} // verus!
