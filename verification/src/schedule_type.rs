use vstd::prelude::*;

verus! {

/// What kind of entitlement a schedule title represents; the schedule naming
/// of `crate::payment_type::PaymentType`.
#[derive(Clone, Copy, Debug, PartialEq, Eq, Structural)]
pub enum ScheduleType {
    Vault,
    PulsarPayment,
    Vesting,
}

/// The schedule naming of each payment type.
pub open spec fn spec_schedule_type_of(t: crate::payment_type::PaymentType) -> ScheduleType {
    match t {
        crate::payment_type::PaymentType::Vault => ScheduleType::Vault,
        crate::payment_type::PaymentType::PulsarPayment => ScheduleType::PulsarPayment,
        crate::payment_type::PaymentType::Vesting => ScheduleType::Vesting,
    }
}

impl ScheduleType {
    /// Rename a payment type into the schedule vocabulary.
    pub fn of_payment_type(t: crate::payment_type::PaymentType) -> (s: ScheduleType)
        ensures
            s == spec_schedule_type_of(t),
    {
        match t {
            crate::payment_type::PaymentType::Vault => ScheduleType::Vault,
            crate::payment_type::PaymentType::PulsarPayment => ScheduleType::PulsarPayment,
            crate::payment_type::PaymentType::Vesting => ScheduleType::Vesting,
        }
    }
}

} // verus!
