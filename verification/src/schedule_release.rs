use vstd::prelude::*;
use crate::release::Release;

verus! {

/// One schedule fragment under the schedule naming: the same shape as
/// `crate::release::Release`, with the interval length called `duration`.
/// The engine is one and the same; these conversions carry values between
/// the two namings.
#[derive(Clone, Copy, Debug, PartialEq, Eq, Structural)]
pub struct ScheduleRelease {
    pub start_date: u64,
    pub end_date: u64,
    pub duration: u64,
    pub amount: u128,
}

impl ScheduleRelease {
    /// This fragment under the payment naming.
    pub fn to_release(self) -> (r: Release)
        ensures
            r.start_date == self.start_date,
            r.end_date == self.end_date,
            r.interval_seconds == self.duration,
            r.amount == self.amount,
    {
        Release {
            start_date: self.start_date,
            end_date: self.end_date,
            interval_seconds: self.duration,
            amount: self.amount,
        }
    }

    /// A payment release under the schedule naming.
    pub fn of_release(r: Release) -> (s: ScheduleRelease)
        ensures
            s.start_date == r.start_date,
            s.end_date == r.end_date,
            s.duration == r.interval_seconds,
            s.amount == r.amount,
    {
        ScheduleRelease {
            start_date: r.start_date,
            end_date: r.end_date,
            duration: r.interval_seconds,
            amount: r.amount,
        }
    }
}

} // verus!
