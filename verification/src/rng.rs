//! Randomness used by the shuffle engine and the batch loader.
//!
//! The random source is the thread-local generator; nothing is assumed of
//! the values drawn beyond their range, and nothing of a shuffle beyond
//! that it permutes.

use vstd::prelude::*;
use rand::seq::SliceRandom;
use rand::RngExt;
use crate::codec::{record_views, PackedSample};

verus! {

/// Relies on rand's `SliceRandom::shuffle`: it reorders the records by a
/// permutation, so the records held are the same, whatever order was
/// drawn.
#[verifier::external_body]
pub fn shuffle_in_place(records: &mut Vec<PackedSample>)
    ensures
        record_views(final(records)@).to_multiset() == record_views(old(records)@).to_multiset(),
        final(records)@.len() == old(records)@.len(),
{
    records.shuffle(&mut rand::rng());
}

/// Relies on rand's `RngExt::random_range`: the drawn value lies below
/// the bound, whatever value was drawn.
#[verifier::external_body]
pub fn random_below(bound: u64) -> (r: u64)
    requires
        bound > 0,
    ensures
        r < bound,
{
    rand::rng().random_range(0..bound)
}

} // verus!
