//! A vesting / streaming-payment accounting engine.
//!
//! A creator locks an asset amount, splits it into one or more interval-based
//! release schedules, and distributes the entitlement among receivers.  Each
//! receiver holds a bearer title whose state travels inside the title itself:
//! every partial claim burns the presented title and, if anything survives,
//! reissues a reduced one.  An optional cancellation title claws back the
//! unvested remainder.  This crate holds the accounting core: validation,
//! tax and pro-rata arithmetic, claim settlement, and cancellation refunds.
//! Minting, burning, transfers and the clock belong to the host ledger and
//! stay outside.

use vstd::prelude::*;

pub mod cancel;
pub mod cancellation;
pub mod create;
pub mod claim;
pub mod errors;
pub mod interval;
pub mod laws;
pub mod payment;
pub mod payment_type;
pub mod pulsar_payment;
pub mod release;
pub mod schedule;
pub mod schedule_release;
pub mod schedule_type;

verus! {

/// Units of the payment title minted per receiver; also the fixed-point base
/// by which per-interval amounts are scaled when a fraction of a title claims.
pub const ONE_PAYMENT_TOKEN: u64 = 1000;

/// Largest accepted release interval: the seconds in a year.
pub const MAX_INTERVAL_SECONDS: u64 = 31_536_000;

/// A per-interval rate at or below this is rejected for divisible payments.
pub const MIN_INTERVAL_RATE: u128 = 100_000;

/// Fee rates are in per-mille units of this denominator.
pub const FEE_DENOMINATOR: u64 = 1000;

} // verus!
