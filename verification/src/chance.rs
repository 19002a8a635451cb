//! Sources of randomness, time and fresh identifiers. Nothing is promised of
//! what they return beyond the shape of the result.
use vstd::prelude::*;
use rand::seq::SliceRandom;
use rand::SeedableRng;
use rand::Rng;

verus! {

/// Calls `SliceRandom::shuffle` (rand 0.8) with a `SmallRng` made by
/// `SeedableRng::seed_from_u64(seed)`. The shuffle swaps elements in place, so
/// the result is a permutation of `v`; which permutation is not stated (the
/// generator behind `SmallRng` differs between platforms).
#[verifier::external_body]
pub(crate) fn shuffle_seeded(v: Vec<usize>, seed: u64) -> (r: Vec<usize>)
    ensures
        r@.to_multiset() == v@.to_multiset(),
{
    let mut v = v;
    let mut rng = rand::rngs::SmallRng::seed_from_u64(seed);
    v.shuffle(&mut rng);
    v
}

/// Calls `SliceRandom::shuffle` (rand 0.8) with a `SmallRng` made by
/// `SeedableRng::from_entropy()`: a permutation of `v`, chosen at random.
#[verifier::external_body]
pub(crate) fn shuffle_entropy(v: Vec<usize>) -> (r: Vec<usize>)
    ensures
        r@.to_multiset() == v@.to_multiset(),
{
    let mut v = v;
    let mut rng = rand::rngs::SmallRng::from_entropy();
    v.shuffle(&mut rng);
    v
}


/// Calls `Rng::gen_ratio(numerator, denominator)` (rand 0.8) on the thread's
/// generator: true with chance `numerator / denominator`. The source returns
/// true outright when the two are equal and can only return false when the
/// numerator is 0; it panics when the numerator exceeds the denominator or
/// the denominator is 0, which `requires` leaves out.
#[verifier::external_body]
pub(crate) fn chance_ratio(numerator: u32, denominator: u32) -> (b: bool)
    requires
        0 < denominator,
        numerator <= denominator,
    ensures
        numerator == denominator ==> b,
        numerator == 0 ==> !b,
{
    rand::thread_rng().gen_ratio(numerator, denominator)
}

/// Calls `Rng::gen_range(0..len)` (rand 0.8) on the thread's generator: an
/// index below `len`, chosen uniformly. It panics on an empty range, which
/// `requires` leaves out.
#[verifier::external_body]
pub(crate) fn index_below(len: usize) -> (i: usize)
    requires
        len > 0,
    ensures
        i < len,
{
    rand::thread_rng().gen_range(0..len)
}


/// Calls `uuid::Uuid::new_v4()` (uuid 1) and renders it with `to_string()`:
/// a fresh random identifier in the hyphenated form, which the source writes
/// as 36 characters.
#[verifier::external_body]
pub(crate) fn fresh_id() -> (s: String)
    ensures
        s@.len() == 36,
{
    uuid::Uuid::new_v4().to_string()
}

/// Calls `chrono::Utc::now().timestamp_millis()` (chrono 0.4): the current
/// time in milliseconds since 1970. Nothing is promised of its value.
#[verifier::external_body]
pub(crate) fn now_millis() -> (t: i64)
{
    chrono::Utc::now().timestamp_millis()
}

} // verus!
