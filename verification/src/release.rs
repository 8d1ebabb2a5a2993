use vstd::prelude::*;
use vstd::arithmetic::div_mod::lemma_fundamental_div_mod;
use vstd::arithmetic::div_mod::lemma_mod_division_less_than_divisor;
use vstd::arithmetic::mul::lemma_mul_nonnegative;
use crate::MAX_INTERVAL_SECONDS;
use crate::errors::PaymentError;

verus! {

/// One atomic schedule unit of an entitlement: between `start_date` and
/// `end_date`, every `interval_seconds` seconds another `amount` vests.
///
/// The same shape serves two roles.  As a request handed to the creation
/// engine, `amount` is the total (pre-tax) value asked for the whole window,
/// across all receivers.  As a component stored on an issued title, `amount`
/// is the post-tax payout per whole interval, at the fixed-point base of one
/// whole title (`crate::ONE_PAYMENT_TOKEN` units).
#[derive(Clone, Copy, Debug, PartialEq, Eq, Structural)]
pub struct Release {
    pub start_date: u64,
    pub end_date: u64,
    pub interval_seconds: u64,
    pub amount: u128,
}

/// Well-formedness of an issued release component: a forward window, an
/// interval between one second and a year, and a duration that is a whole
/// number of intervals.
pub open spec fn release_wf(r: Release) -> bool {
    &&& r.start_date < r.end_date
    &&& 1 <= r.interval_seconds
    &&& r.interval_seconds <= MAX_INTERVAL_SECONDS
    &&& (r.end_date - r.start_date) % (r.interval_seconds as int) == 0
}

/// Whole intervals between start and end.
pub open spec fn release_total_units(r: Release) -> int {
    (r.end_date - r.start_date) / (r.interval_seconds as int)
}

/// The undissipated value of a component: per-interval amount times the
/// remaining whole intervals.  This is the value owed to one whole title.
pub open spec fn release_value(r: Release) -> int {
    r.amount * release_total_units(r)
}

/// Sum of `release_value` over a component list.
pub open spec fn releases_value(rs: Seq<Release>) -> int
    decreases rs.len(),
{
    if rs.len() == 0 {
        0
    } else {
        release_value(rs[0]) + releases_value(rs.drop_first())
    }
}

/// Every component of the list is well-formed.
pub open spec fn releases_wf(rs: Seq<Release>) -> bool {
    forall|i: int| 0 <= i < rs.len() ==> release_wf(#[trigger] rs[i])
}

/// The first reason, if any, to reject `r` as a creation request at time
/// `now`, in the order the creation engine checks them.
pub open spec fn request_error(r: Release, now: u64) -> Option<PaymentError> {
    if r.end_date <= r.start_date {
        Some(PaymentError::EndNotAfterStart)
    } else if r.interval_seconds < 1 || r.interval_seconds > MAX_INTERVAL_SECONDS {
        Some(PaymentError::InvalidInterval)
    } else if r.start_date < now {
        Some(PaymentError::StartInPast)
    } else if (r.end_date - r.start_date) % (r.interval_seconds as int) != 0 {
        Some(PaymentError::IntervalNotAligned)
    } else {
        None
    }
}

/// A request that no check rejects.
pub open spec fn request_valid(r: Release, now: u64) -> bool {
    request_error(r, now) is None
}

/// A well-formed component spans at least one whole interval.
pub proof fn lemma_release_units_pos(r: Release)
    requires
        release_wf(r),
    ensures
        1 <= release_total_units(r),
        release_total_units(r) * r.interval_seconds == r.end_date - r.start_date,
{
    let d = r.end_date - r.start_date;
    let m = r.interval_seconds as int;
    lemma_fundamental_div_mod(d, m);
    lemma_mod_division_less_than_divisor(d, m);
    assert(d == m * (d / m));
    assert(d / m >= 1) by (nonlinear_arith)
        requires
            d == m * (d / m),
            d > 0,
            m >= 1,
    ;
    vstd::arithmetic::mul::lemma_mul_is_commutative(d / m, m);
}

/// A well-formed component's value is nonnegative.
pub proof fn lemma_release_value_nonneg(r: Release)
    requires
        release_wf(r),
    ensures
        release_value(r) >= 0,
{
    lemma_release_units_pos(r);
    lemma_mul_nonnegative(r.amount as int, release_total_units(r));
}

/// Appending a component adds exactly its value to the list's value.
pub proof fn lemma_releases_value_push(rs: Seq<Release>, r: Release)
    ensures
        releases_value(rs.push(r)) == releases_value(rs) + release_value(r),
    decreases rs.len(),
{
    if rs.len() == 0 {
        assert(rs.push(r).drop_first() =~= Seq::<Release>::empty());
        assert(rs.push(r)[0] == r);
        assert(releases_value(rs.push(r)) == release_value(r) + releases_value(
            Seq::<Release>::empty(),
        ));
    } else {
        assert(rs.push(r).drop_first() =~= rs.drop_first().push(r));
        lemma_releases_value_push(rs.drop_first(), r);
        assert(rs.push(r)[0] == rs[0]);
        assert(releases_value(rs.push(r)) == release_value(rs[0]) + releases_value(
            rs.drop_first().push(r),
        ));
    }
}

/// Well-formedness restricts to any contiguous part of a list.
pub proof fn lemma_releases_wf_subrange(rs: Seq<Release>, a: int, b: int)
    requires
        releases_wf(rs),
        0 <= a <= b <= rs.len(),
    ensures
        releases_wf(rs.subrange(a, b)),
{
    let sub = rs.subrange(a, b);
    assert forall|j: int| 0 <= j < sub.len() implies release_wf(#[trigger] sub[j]) by {
        assert(sub[j] == rs[a + j]);
    }
}

/// A list's value splits at any cut point.
pub proof fn lemma_releases_value_split(rs: Seq<Release>, k: int)
    requires
        0 <= k <= rs.len(),
    ensures
        releases_value(rs) == releases_value(rs.take(k)) + releases_value(rs.skip(k)),
    decreases rs.len(),
{
    if k == 0 {
        assert(rs.take(0) =~= Seq::<Release>::empty());
        assert(rs.skip(0) =~= rs);
        assert(releases_value(Seq::<Release>::empty()) == 0);
    } else {
        let tail = rs.drop_first();
        lemma_releases_value_split(tail, k - 1);
        assert(rs.take(k)[0] == rs[0]);
        assert(rs.take(k).drop_first() =~= tail.take(k - 1));
        assert(rs.skip(k) =~= tail.skip(k - 1));
        assert(releases_value(rs.take(k)) == release_value(rs[0]) + releases_value(
            tail.take(k - 1),
        ));
        assert(releases_value(rs) == release_value(rs[0]) + releases_value(tail));
    }
}

/// Decide well-formedness of a component list, including that its combined
/// value fits the amount type.  Titles issued by this engine satisfy this by
/// construction; a host that decodes a title from an untrusted payload can
/// gate on it before settling claims.
pub fn releases_wf_check(releases: &Vec<Release>) -> (r: bool)
    ensures
        r == (releases_wf(releases@) && releases_value(releases@) <= u128::MAX),
{
    let ghost rs = releases@;
    let n = releases.len();
    let mut total: u128 = 0;
    let mut i: usize = 0;
    proof {
        assert(rs.take(0) =~= Seq::<Release>::empty());
    }
    while i < n
        invariant
            n == rs.len(),
            0 <= i <= n,
            rs == releases@,
            releases_wf(rs.take(i as int)),
            total == releases_value(rs.take(i as int)),
        decreases n - i,
    {
        let ghost k = i as int;
        let rel = releases[i];
        if rel.end_date <= rel.start_date || rel.interval_seconds < 1 || rel.interval_seconds
            > MAX_INTERVAL_SECONDS || (rel.end_date - rel.start_date) % rel.interval_seconds != 0 {
            assert(!release_wf(rs[k]));
            return false;
        }
        proof {
            lemma_release_units_pos(rel);
        }
        let units = ((rel.end_date - rel.start_date) / rel.interval_seconds) as u128;
        if rel.amount != 0 && units > u128::MAX / rel.amount {
            proof {
                let a = rel.amount as int;
                let q = (u128::MAX as int) / a;
                lemma_fundamental_div_mod(u128::MAX as int, a);
                lemma_mod_division_less_than_divisor(u128::MAX as int, a);
                assert(release_value(rs[k]) > u128::MAX) by (nonlinear_arith)
                    requires
                        release_value(rs[k]) == a * (units as int),
                        units as int >= q + 1,
                        u128::MAX == a * q + (u128::MAX as int) % a,
                        0 <= (u128::MAX as int) % a < a,
                ;
                if releases_wf(rs) {
                    lemma_releases_value_bounds(rs);
                }
            }
            return false;
        }
        proof {
            let a = rel.amount as int;
            if rel.amount != 0 {
                let q = (u128::MAX as int) / a;
                lemma_fundamental_div_mod(u128::MAX as int, a);
                assert(a * (units as int) <= u128::MAX) by (nonlinear_arith)
                    requires
                        0 <= units as int <= q,
                        1 <= a,
                        a * q <= u128::MAX,
                ;
            }
        }
        let value = rel.amount * units;
        if total > u128::MAX - value {
            proof {
                assert(rs.take(k).push(rs[k]) =~= rs.take(k + 1));
                lemma_releases_value_push(rs.take(k), rs[k]);
                if releases_wf(rs) {
                    lemma_releases_value_split(rs, k + 1);
                    lemma_releases_wf_subrange(rs, k + 1, rs.len() as int);
                    lemma_releases_value_bounds(rs.skip(k + 1));
                }
            }
            return false;
        }
        total = total + value;
        proof {
            assert(rs.take(k).push(rs[k]) =~= rs.take(k + 1));
            lemma_releases_value_push(rs.take(k), rs[k]);
            assert(releases_wf(rs.take(k + 1))) by {
                assert forall|j: int| 0 <= j < k + 1 implies release_wf(
                    #[trigger] rs.take(k + 1)[j],
                ) by {
                    if j < k {
                        assert(rs.take(k + 1)[j] == rs.take(k)[j]);
                    } else {
                        assert(rs.take(k + 1)[j] == rel);
                    }
                }
            }
        }
        i = i + 1;
    }
    proof {
        assert(rs.take(n as int) =~= rs);
    }
    true
}

/// A well-formed list's value is nonnegative and bounds each member's value.
pub proof fn lemma_releases_value_bounds(rs: Seq<Release>)
    requires
        releases_wf(rs),
    ensures
        releases_value(rs) >= 0,
        forall|i: int| 0 <= i < rs.len() ==> #[trigger] release_value(rs[i]) <= releases_value(rs),
    decreases rs.len(),
{
    if rs.len() > 0 {
        lemma_release_value_nonneg(rs[0]);
        let tail = rs.drop_first();
        assert(releases_wf(tail)) by {
            assert forall|j: int| 0 <= j < tail.len() implies release_wf(#[trigger] tail[j]) by {
                assert(tail[j] == rs[j + 1]);
            }
        }
        lemma_releases_value_bounds(tail);
        assert forall|i: int| 0 <= i < rs.len() implies #[trigger] release_value(rs[i])
            <= releases_value(rs) by {
            if i > 0 {
                assert(rs[i] == tail[i - 1]);
                assert(release_value(tail[i - 1]) <= releases_value(tail));
            }
        }
    }
}

} // verus!
