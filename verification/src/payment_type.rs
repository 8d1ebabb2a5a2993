use vstd::prelude::*;

verus! {

/// What kind of entitlement a payment title represents.
#[derive(Clone, Copy, Debug, PartialEq, Eq, Structural)]
pub enum PaymentType {
    Vault,
    PulsarPayment,
    Vesting,
}

} // verus!
