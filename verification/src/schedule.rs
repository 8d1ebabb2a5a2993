use vstd::prelude::*;
use crate::payment::Payment;
use crate::schedule_release::ScheduleRelease;
use crate::schedule_type::ScheduleType;
use crate::schedule_type::spec_schedule_type_of;

verus! {

/// The entitlement title under the schedule naming: the same bearer
/// credential as `crate::payment::Payment`, without the creator-side
/// metadata.  One engine serves both namings; this type exists for callers
/// that speak the schedule vocabulary.
#[derive(Clone, Debug)]
pub struct Schedule {
    pub schedule_type: ScheduleType,
    pub identifier: u64,
    pub name: Vec<u8>,
    pub start_date: u64,
    pub end_date: u64,
    pub release_token: Vec<u8>,
    pub release_nonce: u64,
    pub releases: Vec<ScheduleRelease>,
}

impl Schedule {
    /// The schedule view of an issued payment title.
    pub fn of_payment(p: &Payment) -> (s: Schedule)
        ensures
            s.schedule_type == spec_schedule_type_of(p.payment_type),
            s.identifier == p.identifier,
            s.name@ == p.name@,
            s.start_date == p.start_date,
            s.end_date == p.end_date,
            s.release_token@ == p.release_token@,
            s.release_nonce == p.release_nonce,
            s.releases@.len() == p.releases@.len(),
            forall|i: int|
                0 <= i < p.releases@.len() ==> {
                    let sr = #[trigger] s.releases@[i];
                    &&& sr.start_date == p.releases@[i].start_date
                    &&& sr.end_date == p.releases@[i].end_date
                    &&& sr.duration == p.releases@[i].interval_seconds
                    &&& sr.amount == p.releases@[i].amount
                },
    {
        let mut releases: Vec<ScheduleRelease> = Vec::new();
        let n = p.releases.len();
        let mut i: usize = 0;
        while i < n
            invariant
                n == p.releases@.len(),
                0 <= i <= n,
                releases@.len() == i,
                forall|j: int|
                    0 <= j < i ==> {
                        let sr = #[trigger] releases@[j];
                        &&& sr.start_date == p.releases@[j].start_date
                        &&& sr.end_date == p.releases@[j].end_date
                        &&& sr.duration == p.releases@[j].interval_seconds
                        &&& sr.amount == p.releases@[j].amount
                    },
            decreases n - i,
        {
            releases.push(ScheduleRelease::of_release(p.releases[i]));
            i = i + 1;
        }
        let mut name: Vec<u8> = Vec::new();
        let mut release_token: Vec<u8> = Vec::new();
        let nn = p.name.len();
        let mut a: usize = 0;
        while a < nn
            invariant
                nn == p.name@.len(),
                0 <= a <= nn,
                name@ == p.name@.take(a as int),
            decreases nn - a,
        {
            name.push(p.name[a]);
            proof {
                assert(p.name@.take(a as int).push(p.name@[a as int]) =~= p.name@.take(
                    a as int + 1,
                ));
            }
            a = a + 1;
        }
        let nt = p.release_token.len();
        let mut b: usize = 0;
        while b < nt
            invariant
                nt == p.release_token@.len(),
                0 <= b <= nt,
                release_token@ == p.release_token@.take(b as int),
            decreases nt - b,
        {
            release_token.push(p.release_token[b]);
            proof {
                assert(p.release_token@.take(b as int).push(p.release_token@[b as int])
                    =~= p.release_token@.take(b as int + 1));
            }
            b = b + 1;
        }
        proof {
            assert(p.name@.take(nn as int) =~= p.name@);
            assert(p.release_token@.take(nt as int) =~= p.release_token@);
        }
        Schedule {
            schedule_type: ScheduleType::of_payment_type(p.payment_type),
            identifier: p.identifier,
            name,
            start_date: p.start_date,
            end_date: p.end_date,
            release_token,
            release_nonce: p.release_nonce,
            releases,
        }
    }
}

} // verus!
