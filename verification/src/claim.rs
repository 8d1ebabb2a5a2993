use vstd::prelude::*;
use crate::ONE_PAYMENT_TOKEN;
use crate::interval::spec_aligned_boundary;
use crate::interval::spec_elapsed_units;
use crate::interval::lemma_aligned_boundary;
use crate::interval::lemma_aligned_boundary_keeps_alignment;
use crate::interval::lemma_elapsed_units_monotone;
use crate::interval::lemma_exact_div;
use crate::interval::lemma_mul_div_split;
use crate::release::Release;
use crate::release::release_wf;
use crate::release::release_total_units;
use crate::release::release_value;
use crate::release::releases_wf;
use crate::release::releases_value;
use crate::release::lemma_release_units_pos;
use crate::release::lemma_release_value_nonneg;

verus! {

/// How far a claim at `now` may count vested intervals: the earliest of the
/// current time, the component's end, and the cancellation timestamp when one
/// is set.
pub open spec fn spec_claim_horizon(r: Release, cancel_date: u64, now: u64) -> int {
    let m = if now <= r.end_date {
        now as int
    } else {
        r.end_date as int
    };
    if cancel_date > 0 && (cancel_date as int) < m {
        cancel_date as int
    } else {
        m
    }
}

/// Whole intervals a claim at `now` may settle for this component.
pub open spec fn spec_claim_units(r: Release, cancel_date: u64, now: u64) -> int {
    spec_elapsed_units(
        spec_claim_horizon(r, cancel_date, now),
        r.start_date as int,
        r.interval_seconds as int,
    )
}

/// A component is dropped without payment when it was cancelled before it
/// ever started.
pub open spec fn spec_cancelled_before_start(r: Release, cancel_date: u64) -> bool {
    cancel_date > 0 && cancel_date <= r.start_date
}

/// What one claim pays for one component, for a presented title quantity
/// `quantity`, under floor division at the fixed-point base.
pub open spec fn spec_claim_paid(r: Release, quantity: u64, cancel_date: u64, now: u64) -> int {
    if spec_cancelled_before_start(r, cancel_date) {
        0
    } else if now <= r.start_date {
        0
    } else if spec_claim_units(r, cancel_date, now) == 0 {
        0
    } else {
        quantity * spec_claim_units(r, cancel_date, now) * r.amount / (ONE_PAYMENT_TOKEN as int)
    }
}

/// What survives of one component after one claim: the component unchanged
/// when nothing has vested yet, the component advanced to the latest settled
/// interval boundary when it keeps running, nothing when it was cancelled or
/// has run out.
pub open spec fn spec_claim_result(r: Release, cancel_date: u64, now: u64) -> Option<Release> {
    if spec_cancelled_before_start(r, cancel_date) {
        None
    } else if now <= r.start_date {
        Some(r)
    } else if spec_claim_units(r, cancel_date, now) == 0 {
        Some(r)
    } else if cancel_date == 0 && now < r.end_date {
        Some(
            Release {
                start_date: spec_aligned_boundary(
                    now as int,
                    r.start_date as int,
                    r.interval_seconds as int,
                ) as u64,
                end_date: r.end_date,
                interval_seconds: r.interval_seconds,
                amount: r.amount,
            },
        )
    } else {
        None
    }
}

/// The components of a list that survive one claim, in order.
pub open spec fn spec_claim_surviving(rs: Seq<Release>, cancel_date: u64, now: u64) -> Seq<Release>
    decreases rs.len(),
{
    if rs.len() == 0 {
        Seq::empty()
    } else {
        let rest = spec_claim_surviving(rs.drop_first(), cancel_date, now);
        match spec_claim_result(rs[0], cancel_date, now) {
            Some(r2) => seq![r2] + rest,
            None => rest,
        }
    }
}

/// What one claim pays over a whole component list.
pub open spec fn spec_claim_total(rs: Seq<Release>, quantity: u64, cancel_date: u64, now: u64) -> int
    decreases rs.len(),
{
    if rs.len() == 0 {
        0
    } else {
        spec_claim_paid(rs[0], quantity, cancel_date, now) + spec_claim_total(
            rs.drop_first(),
            quantity,
            cancel_date,
            now,
        )
    }
}

/// Per-component claim accounting: the payment is within the component's
/// undissipated value, a surviving component is well-formed, keeps its shape,
/// and loses exactly the settled intervals.
pub proof fn lemma_claim_release_bounds(r: Release, quantity: u64, cancel_date: u64, now: u64)
    requires
        release_wf(r),
        quantity <= ONE_PAYMENT_TOKEN,
    ensures
        0 <= spec_claim_paid(r, quantity, cancel_date, now) <= release_value(r),
        match spec_claim_result(r, cancel_date, now) {
            Some(r2) => {
                &&& release_wf(r2)
                &&& r2.amount == r.amount
                &&& r2.end_date == r.end_date
                &&& r2.interval_seconds == r.interval_seconds
                &&& r2.start_date >= r.start_date
                &&& release_value(r2) <= release_value(r)
            },
            None => true,
        },
{
    let i = r.interval_seconds as int;
    let start = r.start_date as int;
    let end = r.end_date as int;
    lemma_release_units_pos(r);
    lemma_release_value_nonneg(r);
    if !spec_cancelled_before_start(r, cancel_date) && now > r.start_date {
        let h = spec_claim_horizon(r, cancel_date, now);
        let units = spec_claim_units(r, cancel_date, now);
        assert(start < h <= end);
        lemma_elapsed_units_monotone(h, end, start, i);
        assert(spec_elapsed_units(end, start, i) == release_total_units(r));
        vstd::arithmetic::div_mod::lemma_div_pos_is_pos(h - start, i);
        assert(0 <= units <= release_total_units(r));
        if units != 0 {
            let a = units * r.amount;
            assert(0 <= a <= release_value(r)) by (nonlinear_arith)
                requires
                    a == units * r.amount,
                    0 <= units <= release_total_units(r),
                    0 <= r.amount,
                    release_value(r) == r.amount * release_total_units(r),
            ;
            lemma_mul_div_split(a, quantity as int, ONE_PAYMENT_TOKEN as int);
            assert(quantity * units * r.amount == a * quantity) by (nonlinear_arith)
                requires
                    a == units * r.amount,
            ;
            assert(spec_claim_paid(r, quantity, cancel_date, now) == (a * quantity) / (
            ONE_PAYMENT_TOKEN as int));
            if cancel_date == 0 && now < r.end_date {
                lemma_aligned_boundary(now as int, start, i);
                let b = spec_aligned_boundary(now as int, start, i);
                assert(start <= b <= now < end);
                lemma_aligned_boundary_keeps_alignment(now as int, start, end, i);
                let r2 = spec_claim_result(r, cancel_date, now)->Some_0;
                assert(r2.start_date == b);
                assert(release_wf(r2));
                vstd::arithmetic::div_mod::lemma_div_is_ordered_by_denominator(end - b, i, i);
                vstd::arithmetic::div_mod::lemma_div_is_ordered(end - b, end - start, i);
                assert(release_total_units(r2) <= release_total_units(r));
                assert(release_value(r2) <= release_value(r)) by (nonlinear_arith)
                    requires
                        0 <= r.amount,
                        release_total_units(r2) <= release_total_units(r),
                        release_value(r2) == r.amount * release_total_units(r2),
                        release_value(r) == r.amount * release_total_units(r),
                ;
            }
        }
    }
}

/// A claim settles exactly the elapsed intervals: when a component survives
/// with an advanced start, its remaining whole intervals drop by exactly the
/// settled count.
pub proof fn lemma_claim_release_advance(r: Release, cancel_date: u64, now: u64)
    requires
        release_wf(r),
        !spec_cancelled_before_start(r, cancel_date),
        now > r.start_date,
        spec_claim_units(r, cancel_date, now) != 0,
        cancel_date == 0,
        now < r.end_date,
    ensures
        spec_claim_result(r, cancel_date, now) matches Some(r2) && release_total_units(r2)
            == release_total_units(r) - spec_claim_units(r, cancel_date, now),
{
    let i = r.interval_seconds as int;
    let start = r.start_date as int;
    let end = r.end_date as int;
    let units = spec_claim_units(r, cancel_date, now);
    lemma_aligned_boundary(now as int, start, i);
    let b = spec_aligned_boundary(now as int, start, i);
    assert(spec_claim_horizon(r, cancel_date, now) == now as int);
    assert(b == start + i * units);
    let r2 = spec_claim_result(r, cancel_date, now)->Some_0;
    assert(r2.start_date == b && r2.end_date == r.end_date && r2.interval_seconds
        == r.interval_seconds);
    assert(end - b == (end - start) - i * units);
    lemma_exact_div(end - start, i);
    assert((end - start) - i * units == i * (release_total_units(r) - units)) by (nonlinear_arith)
        requires
            i * release_total_units(r) == end - start,
    ;
    assert(release_total_units(r2) == (i * (release_total_units(r) - units)) / i);
    vstd::arithmetic::div_mod::lemma_div_multiples_vanish(release_total_units(r) - units, i);
}

/// Appending a component extends the surviving list and the total payment in
/// the obvious way.
pub proof fn lemma_claim_seq_push(
    rs: Seq<Release>,
    r: Release,
    quantity: u64,
    cancel_date: u64,
    now: u64,
)
    ensures
        spec_claim_total(rs.push(r), quantity, cancel_date, now) == spec_claim_total(
            rs,
            quantity,
            cancel_date,
            now,
        ) + spec_claim_paid(r, quantity, cancel_date, now),
        spec_claim_surviving(rs.push(r), cancel_date, now) == spec_claim_surviving(
            rs,
            cancel_date,
            now,
        ) + (match spec_claim_result(r, cancel_date, now) {
            Some(r2) => seq![r2],
            None => Seq::empty(),
        }),
    decreases rs.len(),
{
    if rs.len() == 0 {
        assert(rs.push(r).drop_first() =~= Seq::<Release>::empty());
        assert(rs.push(r)[0] == r);
        assert(spec_claim_total(rs.push(r), quantity, cancel_date, now) == spec_claim_paid(
            r,
            quantity,
            cancel_date,
            now,
        ) + spec_claim_total(Seq::<Release>::empty(), quantity, cancel_date, now));
        assert(spec_claim_total(Seq::<Release>::empty(), quantity, cancel_date, now) == 0);
        assert(spec_claim_total(rs, quantity, cancel_date, now) == 0);
        assert(spec_claim_surviving(rs.push(r), cancel_date, now) == (
        match spec_claim_result(r, cancel_date, now) {
            Some(r2) => seq![r2] + spec_claim_surviving(Seq::<Release>::empty(), cancel_date, now),
            None => spec_claim_surviving(Seq::<Release>::empty(), cancel_date, now),
        }));
        assert(spec_claim_surviving(Seq::<Release>::empty(), cancel_date, now)
            =~= Seq::<Release>::empty());
        assert(spec_claim_surviving(rs, cancel_date, now) =~= Seq::<Release>::empty());
        match spec_claim_result(r, cancel_date, now) {
            Some(r2) => {
                assert(spec_claim_surviving(rs.push(r), cancel_date, now) =~= spec_claim_surviving(
                    rs,
                    cancel_date,
                    now,
                ) + seq![r2]);
            },
            None => {
                assert(spec_claim_surviving(rs.push(r), cancel_date, now)
                    =~= spec_claim_surviving(rs, cancel_date, now) + Seq::<Release>::empty());
            },
        }
    } else {
        assert(rs.push(r).drop_first() =~= rs.drop_first().push(r));
        assert(rs.push(r)[0] == rs[0]);
        lemma_claim_seq_push(rs.drop_first(), r, quantity, cancel_date, now);
        assert(spec_claim_total(rs.push(r), quantity, cancel_date, now) == spec_claim_paid(
            rs[0],
            quantity,
            cancel_date,
            now,
        ) + spec_claim_total(rs.drop_first().push(r), quantity, cancel_date, now));
        assert(spec_claim_total(rs, quantity, cancel_date, now) == spec_claim_paid(
            rs[0],
            quantity,
            cancel_date,
            now,
        ) + spec_claim_total(rs.drop_first(), quantity, cancel_date, now));
        assert(spec_claim_surviving(rs.push(r), cancel_date, now) =~= spec_claim_surviving(
            rs,
            cancel_date,
            now,
        ) + (match spec_claim_result(r, cancel_date, now) {
            Some(r2) => seq![r2],
            None => Seq::empty(),
        }));
    }
}

/// Whole-list claim accounting: the total payment is within the list's
/// undissipated value, and the surviving list is well-formed and worth no
/// more than the original.
pub proof fn lemma_claim_seq_bounds(rs: Seq<Release>, quantity: u64, cancel_date: u64, now: u64)
    requires
        releases_wf(rs),
        quantity <= ONE_PAYMENT_TOKEN,
    ensures
        0 <= spec_claim_total(rs, quantity, cancel_date, now) <= releases_value(rs),
        releases_wf(spec_claim_surviving(rs, cancel_date, now)),
        releases_value(spec_claim_surviving(rs, cancel_date, now)) <= releases_value(rs),
        spec_claim_surviving(rs, cancel_date, now).len() <= rs.len(),
    decreases rs.len(),
{
    if rs.len() == 0 {
    } else {
        let tail = rs.drop_first();
        assert(releases_wf(tail)) by {
            assert forall|j: int| 0 <= j < tail.len() implies release_wf(#[trigger] tail[j]) by {
                assert(tail[j] == rs[j + 1]);
            }
        }
        lemma_claim_seq_bounds(tail, quantity, cancel_date, now);
        lemma_claim_release_bounds(rs[0], quantity, cancel_date, now);
        let surv = spec_claim_surviving(rs, cancel_date, now);
        let surv_tail = spec_claim_surviving(tail, cancel_date, now);
        match spec_claim_result(rs[0], cancel_date, now) {
            Some(r2) => {
                assert(surv == seq![r2] + surv_tail);
                assert(surv[0] == r2);
                assert(surv.drop_first() =~= surv_tail);
                assert(releases_wf(surv)) by {
                    assert forall|j: int| 0 <= j < surv.len() implies release_wf(
                        #[trigger] surv[j],
                    ) by {
                        if j > 0 {
                            assert(surv[j] == surv_tail[j - 1]);
                        }
                    }
                }
                assert(releases_value(surv) == release_value(r2) + releases_value(surv_tail));
            },
            None => {
                assert(surv == surv_tail);
                lemma_release_value_nonneg(rs[0]);
            },
        }
    }
}

} // verus!
