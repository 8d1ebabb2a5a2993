use vstd::prelude::*;

verus! {

/// Why an operation was rejected.  Every rejection aborts the whole call:
/// no state changes and no transfers are reported for a rejected batch.
#[derive(Clone, Copy, Debug, PartialEq, Eq, Structural)]
pub enum PaymentError {
    /// The release batch was empty.
    NoReleases,
    /// The receiver list was empty.
    NoReceivers,
    /// A request had `end_date <= start_date`.
    EndNotAfterStart,
    /// A request's interval was zero or longer than a year.
    InvalidInterval,
    /// A request's start date lay before the current time.
    StartInPast,
    /// A request's duration was not a whole number of intervals.
    IntervalNotAligned,
    /// A divisible payment's per-interval rate was at or below the dust floor.
    RateTooLow,
    /// The requested amounts did not add up to the attached principal.
    AmountMismatch,
    /// A title presented for claiming was not a payment title.
    WrongPaymentToken,
    /// A title presented for cancelling was not a cancellation title.
    WrongCancellationToken,
}

} // verus!
