use vstd::prelude::*;
use crate::interval::spec_aligned_boundary;
use crate::interval::lemma_aligned_boundary;
use crate::interval::lemma_aligned_boundary_keeps_alignment;
use crate::interval::lemma_exact_div;
use crate::interval::lemma_mul_exact_div;
use crate::release::Release;
use crate::release::release_wf;
use crate::release::release_total_units;
use crate::release::release_value;
use crate::release::releases_wf;
use crate::release::releases_value;
use crate::release::lemma_release_units_pos;
use crate::release::lemma_release_value_nonneg;

verus! {

/// Where a cancelled component effectively restarts for refund purposes: the
/// latest settled interval boundary, but never before the component's own
/// start.
pub open spec fn spec_refund_effective_start(r: Release, now: u64) -> int {
    let b = spec_aligned_boundary(now as int, r.start_date as int, r.interval_seconds as int);
    if b > r.start_date as int {
        b
    } else {
        r.start_date as int
    }
}

/// What cancelling at `now` refunds for one component: the value of the
/// window from the effective start to the end, at the per-interval rate,
/// under floor division.  A component that has already ended refunds
/// nothing.
pub open spec fn spec_release_refund(r: Release, now: u64) -> int {
    if now < r.end_date {
        let remaining_time = r.end_date as int - spec_refund_effective_start(r, now);
        r.amount * remaining_time / (r.interval_seconds as int)
    } else {
        0
    }
}

/// What cancelling at `now` refunds over a whole component list.
pub open spec fn spec_refund_total(rs: Seq<Release>, now: u64) -> int
    decreases rs.len(),
{
    if rs.len() == 0 {
        0
    } else {
        spec_release_refund(rs[0], now) + spec_refund_total(rs.drop_first(), now)
    }
}

/// Per-component refund accounting: the refunded window is a whole number of
/// intervals, the floor division loses nothing, and the refund never exceeds
/// the component's undissipated value.
pub proof fn lemma_release_refund_bounds(r: Release, now: u64)
    requires
        release_wf(r),
    ensures
        0 <= spec_release_refund(r, now) <= release_value(r),
        now < r.end_date ==> {
            let remaining_time = r.end_date as int - spec_refund_effective_start(r, now);
            &&& r.start_date <= spec_refund_effective_start(r, now) < r.end_date
            &&& remaining_time % (r.interval_seconds as int) == 0
            &&& spec_release_refund(r, now) == r.amount * (remaining_time / (
            r.interval_seconds as int))
        },
{
    let i = r.interval_seconds as int;
    let start = r.start_date as int;
    let end = r.end_date as int;
    lemma_release_units_pos(r);
    lemma_release_value_nonneg(r);
    if now < r.end_date {
        let es = spec_refund_effective_start(r, now);
        let rt = end - es;
        if now > r.start_date {
            lemma_aligned_boundary(now as int, start, i);
            lemma_aligned_boundary_keeps_alignment(now as int, start, end, i);
            assert(es == spec_aligned_boundary(now as int, start, i));
            assert(start <= es <= now as int);
        } else {
            let b = spec_aligned_boundary(now as int, start, i);
            vstd::arithmetic::div_mod::lemma_mod_division_less_than_divisor(now - start, i);
            assert(b <= now as int);
            assert(es == start);
        }
        assert(rt % i == 0);
        assert(0 < rt <= end - start);
        lemma_exact_div(rt, i);
        lemma_mul_exact_div(r.amount as int, rt, i);
        vstd::arithmetic::div_mod::lemma_div_is_ordered(rt, end - start, i);
        assert(0 <= rt / i <= release_total_units(r));
        assert(0 <= r.amount * (rt / i) <= release_value(r)) by (nonlinear_arith)
            requires
                0 <= rt / i <= release_total_units(r),
                0 <= r.amount,
                release_value(r) == r.amount * release_total_units(r),
        ;
    }
}

/// Appending a component adds exactly its refund to the list's refund.
pub proof fn lemma_refund_push(rs: Seq<Release>, r: Release, now: u64)
    ensures
        spec_refund_total(rs.push(r), now) == spec_refund_total(rs, now) + spec_release_refund(
            r,
            now,
        ),
    decreases rs.len(),
{
    if rs.len() == 0 {
        assert(rs.push(r).drop_first() =~= Seq::<Release>::empty());
        assert(rs.push(r)[0] == r);
        assert(spec_refund_total(Seq::<Release>::empty(), now) == 0);
        assert(spec_refund_total(rs, now) == 0);
    } else {
        assert(rs.push(r).drop_first() =~= rs.drop_first().push(r));
        assert(rs.push(r)[0] == rs[0]);
        lemma_refund_push(rs.drop_first(), r, now);
        assert(spec_refund_total(rs.push(r), now) == spec_release_refund(rs[0], now)
            + spec_refund_total(rs.drop_first().push(r), now));
        assert(spec_refund_total(rs, now) == spec_release_refund(rs[0], now) + spec_refund_total(
            rs.drop_first(),
            now,
        ));
    }
}

/// The whole refund is within the list's undissipated value.
pub proof fn lemma_refund_seq_bounds(rs: Seq<Release>, now: u64)
    requires
        releases_wf(rs),
    ensures
        0 <= spec_refund_total(rs, now) <= releases_value(rs),
    decreases rs.len(),
{
    if rs.len() > 0 {
        let tail = rs.drop_first();
        assert(releases_wf(tail)) by {
            assert forall|j: int| 0 <= j < tail.len() implies release_wf(#[trigger] tail[j]) by {
                assert(tail[j] == rs[j + 1]);
            }
        }
        lemma_refund_seq_bounds(tail, now);
        lemma_release_refund_bounds(rs[0], now);
    }
}

} // verus!
