//! A self-hosted crypto-payment gateway's settlement core: invoices ask
//! for a token amount on a chain, payments to derived receive addresses
//! are credited once, confirmed by block depth, and reported over signed
//! webhooks. Every rule lives in verified code: the 256-bit amount
//! arithmetic and its decimal codec, the receive-address derivation and
//! checksumming, the ledger with its invariants, the scanner's planning
//! and block matching, the confirmation and expiry passes, and the
//! webhook queue with its backoff.

use vstd::prelude::*;

pub mod address;
pub mod amount;
pub mod api;
pub mod engine;
pub mod getters;
pub mod model;
pub mod scan;
pub mod sign;
pub mod store;
pub mod text;
pub mod units;

verus! {

/// The exponential backoff delay, in seconds, that follows a failed
/// webhook delivery attempt: 30 s after the first failure, doubling each
/// time, capped at one hour.
pub fn retry_delay_secs(attempts: u32) -> (r: u64)
    requires
        attempts >= 1,
    ensures
        r == crate::engine::retry_delay_spec(attempts),
        r <= 3600,
{
    match attempts {
        1 => 30,
        2 => 60,
        3 => 120,
        4 => 240,
        5 => 480,
        6 => 960,
        7 => 1920,
        _ => 3600,
    }
}

} // verus!
