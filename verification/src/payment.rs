use vstd::prelude::*;
use crate::payment_type::PaymentType;
use crate::release::Release;
use crate::release::releases_value;
use crate::release::releases_wf;

verus! {

/// The entitlement title: the bearer credential that represents the right to
/// claim.  It carries its whole mutable state: every partial claim burns the
/// presented title and, when any component survives, a replacement carrying
/// the reduced component list is minted.  Addresses, token identifiers and
/// the name are carried as plain bytes; the host converts them to and from
/// its own representations at the edge.
#[derive(Clone, Debug)]
pub struct Payment {
    pub version: u8,
    pub payment_type: PaymentType,
    pub identifier: u64,
    pub name: Vec<u8>,
    pub start_date: u64,
    pub end_date: u64,
    pub release_token: Vec<u8>,
    pub release_nonce: u64,
    pub creator: Vec<u8>,
    pub amount: u128,
    pub cancelable: bool,
    pub releases: Vec<Release>,
}

/// A title is well-formed when each component is, and the combined
/// undissipated value of its components fits the amount type.  Titles issued
/// by the creation engine satisfy this, and claims only ever drop components
/// or shrink their windows.
pub open spec fn payment_wf(p: Payment) -> bool {
    &&& releases_wf(p.releases@)
    &&& releases_value(p.releases@) <= u128::MAX
}

} // verus!
