//! Randomness for spawn jitter, wander sampling and strafe choice.
//!
//! The only trusted item is the specification of `rand::random`; everything
//! derived from the raw draw is verified, so every caller's bounds hold for
//! whatever value the generator returns.

use vstd::prelude::*;

verus! {

/// Relies on rand::random: an arbitrary value of the type; nothing can be
/// promised of a random draw.
pub assume_specification<T>[ rand::random::<T> ]() -> (r: T)
    where rand::distributions::Standard: rand::distributions::Distribution<T>,
;

/// A fresh random 64-bit value.
pub fn random_u64() -> u64 {
    rand::random::<u64>()
}

/// A random value in `[0, n)`, from a fresh draw.
pub fn random_below(n: u64) -> (r: u64)
    requires
        n > 0,
    ensures
        r < n,
{
    let raw = random_u64();
    raw % n
}

/// A random offset in `[-limit, limit]`, from a fresh draw.
pub fn random_offset(limit: i64) -> (r: i64)
    requires
        0 <= limit <= 1_000_000_000,
    ensures
        -limit <= r <= limit,
{
    if limit == 0 {
        return 0;
    }
    let span: u64 = (2 * limit + 1) as u64;
    let v = random_below(span);
    (v as i64) - limit
}

} // verus!
