//! Verified core of a command-line client that reports the holder
//! distribution of an SPL token mint.
//!
//! The library holds the logic that is worth proving: decoding raw
//! token-account data, aggregating per-owner balances, ranking holders,
//! selecting the enrichment report, and the memoized lookup caches.
//! Network access, signing and display formatting live outside, in the
//! surrounding binary, which hands the library plain values.

pub mod accounts;
pub mod amounts;
pub mod cache;
pub mod config;
pub mod enrich;
pub mod holders;
pub mod metadata;

use vstd::prelude::*;

verus! {

/// How many holders the report displays: the caller-supplied top-N,
/// raised to at least one, and never more than there are holders.
pub fn display_count(holder_count: usize, top_holders: usize) -> (r: usize)
    ensures
        r == vstd::math::min(holder_count as int, vstd::math::max(top_holders as int, 1)),
{
    let wanted: usize = if top_holders < 1 {
        1
    } else {
        top_holders
    };
    if holder_count < wanted {
        holder_count
    } else {
        wanted
    }
}

} // verus!
