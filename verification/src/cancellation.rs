use vstd::prelude::*;
use crate::release::Release;
use crate::release::releases_value;
use crate::release::releases_wf;

verus! {

/// The cancellation title: a companion bearer credential issued alongside a
/// cancelable entitlement.  Whoever holds it may cancel that entitlement and
/// collect the unvested remainder; it is destroyed when presented, whatever
/// the refund comes to.  `releases` is a snapshot of the entitlement's
/// components at issuance time.
#[derive(Clone, Debug)]
pub struct Cancellation {
    pub payment_identifier: u64,
    pub release_token: Vec<u8>,
    pub release_nonce: u64,
    pub releases: Vec<Release>,
}

/// Well-formedness mirrors the entitlement title's: sound components whose
/// combined value fits the amount type.
pub open spec fn cancellation_wf(c: Cancellation) -> bool {
    &&& releases_wf(c.releases@)
    &&& releases_value(c.releases@) <= u128::MAX
}

} // verus!
