use vstd::prelude::*;
use vstd::arithmetic::div_mod::lemma_div_is_ordered;
use vstd::arithmetic::div_mod::lemma_div_pos_is_pos;
use vstd::arithmetic::div_mod::lemma_fundamental_div_mod;
use vstd::arithmetic::div_mod::lemma_hoist_over_denominator;
use vstd::arithmetic::div_mod::lemma_mod_division_less_than_divisor;
use crate::ONE_PAYMENT_TOKEN;
use crate::claim::spec_cancelled_before_start;
use crate::claim::spec_claim_horizon;
use crate::claim::spec_claim_paid;
use crate::claim::spec_claim_result;
use crate::claim::spec_claim_surviving;
use crate::claim::spec_claim_total;
use crate::claim::spec_claim_units;
use crate::claim::lemma_claim_release_advance;
use crate::claim::lemma_claim_release_bounds;
use crate::interval::spec_elapsed_units;
use crate::interval::lemma_elapsed_units_monotone;
use crate::release::Release;
use crate::release::release_total_units;
use crate::release::release_value;
use crate::release::release_wf;
use crate::release::lemma_release_units_pos;
use crate::release::lemma_release_value_nonneg;

verus! {

/// The part of a component's value owed to a holder of `quantity` units of
/// its title, under floor division at the fixed-point base.
pub open spec fn spec_quantity_share(quantity: u64, value: int) -> int {
    quantity * value / (ONE_PAYMENT_TOKEN as int)
}

/// Claiming against a component that has not started yet is a no-op: it
/// pays nothing and reissues the component unchanged.  Since neither the
/// component nor anything it depends on changes, any number of repeated
/// claims before the start date leaves it untouched.
pub proof fn law_claim_before_start_is_noop(r: Release, quantity: u64, cancel_date: u64, now: u64)
    requires
        now <= r.start_date,
        !spec_cancelled_before_start(r, cancel_date),
    ensures
        spec_claim_paid(r, quantity, cancel_date, now) == 0,
        spec_claim_result(r, cancel_date, now) == Some(r),
{
}

/// The list form of the same no-op: a claim before every component's start
/// pays nothing and reissues the whole list unchanged.
pub proof fn law_claim_before_start_seq_noop(
    rs: Seq<Release>,
    quantity: u64,
    cancel_date: u64,
    now: u64,
)
    requires
        forall|i: int|
            0 <= i < rs.len() ==> now <= (#[trigger] rs[i]).start_date
                && !spec_cancelled_before_start(rs[i], cancel_date),
    ensures
        spec_claim_total(rs, quantity, cancel_date, now) == 0,
        spec_claim_surviving(rs, cancel_date, now) == rs,
    decreases rs.len(),
{
    if rs.len() == 0 {
        assert(spec_claim_surviving(rs, cancel_date, now) =~= rs);
    } else {
        let tail = rs.drop_first();
        assert(forall|i: int|
            0 <= i < tail.len() ==> #[trigger] tail[i] == rs[i + 1]);
        law_claim_before_start_seq_noop(tail, quantity, cancel_date, now);
        law_claim_before_start_is_noop(rs[0], quantity, cancel_date, now);
        assert(spec_claim_surviving(rs, cancel_date, now) =~= rs);
    }
}

/// Exhaustion: a claim at or after the end of an uncancelled component pays
/// out every interval of it and drops it.  Nothing of the component is
/// reissued, so no later claim can pay for it again.
pub proof fn law_exhausted_component_drops(r: Release, quantity: u64, now: u64)
    requires
        release_wf(r),
        now >= r.end_date,
    ensures
        spec_claim_result(r, 0, now) is None,
        spec_claim_paid(r, quantity, 0, now) == spec_quantity_share(
            quantity,
            release_value(r),
        ),
{
    lemma_release_units_pos(r);
    assert(spec_claim_horizon(r, 0, now) == r.end_date as int);
    assert(spec_claim_units(r, 0, now) == release_total_units(r));
    let t = release_total_units(r);
    assert(quantity * t * r.amount == quantity * (r.amount * t)) by (nonlinear_arith);
}

/// The cancellation cap: once an entitlement is cancelled at `cancel_date`,
/// a claim made at any time never pays more than an uncancelled claim made
/// exactly at `cancel_date` would: no interval beyond the cancellation
/// timestamp is ever settled.
pub proof fn law_cancellation_caps_payment(r: Release, quantity: u64, cancel_date: u64, now: u64)
    requires
        release_wf(r),
        cancel_date > 0,
    ensures
        spec_claim_paid(r, quantity, cancel_date, now) <= spec_claim_paid(
            r,
            quantity,
            0,
            cancel_date,
        ),
{
    let i = r.interval_seconds as int;
    let start = r.start_date as int;
    if cancel_date <= r.start_date {
    } else if now <= r.start_date {
        lemma_claim_paid_nonneg(r, quantity, 0, cancel_date);
    } else {
        let hl = spec_claim_horizon(r, cancel_date, now);
        let hr = spec_claim_horizon(r, 0, cancel_date);
        assert(hl <= hr);
        lemma_elapsed_units_monotone(hl, hr, start, i);
        let ul = spec_claim_units(r, cancel_date, now);
        let ur = spec_claim_units(r, 0, cancel_date);
        assert(ul <= ur);
        if ul == 0 {
            lemma_claim_paid_nonneg(r, quantity, 0, cancel_date);
        } else {
            assert(start < hl);
            lemma_div_pos_is_pos(hl - start, i);
            assert(0 < ul);
            assert(quantity * ul * r.amount <= quantity * ur * r.amount) by (nonlinear_arith)
                requires
                    0 <= quantity,
                    0 <= r.amount,
                    0 <= ul <= ur,
            ;
            lemma_div_is_ordered(
                quantity * ul * r.amount,
                quantity * ur * r.amount,
                ONE_PAYMENT_TOKEN as int,
            );
        }
    }
}

/// What a claim pays is never negative.
pub proof fn lemma_claim_paid_nonneg(r: Release, quantity: u64, cancel_date: u64, now: u64)
    requires
        release_wf(r),
    ensures
        0 <= spec_claim_paid(r, quantity, cancel_date, now),
{
    if !spec_cancelled_before_start(r, cancel_date) && now > r.start_date && spec_claim_units(
        r,
        cancel_date,
        now,
    ) != 0 {
        let h = spec_claim_horizon(r, cancel_date, now);
        let u = spec_claim_units(r, cancel_date, now);
        assert(r.start_date < h);
        lemma_div_pos_is_pos(h - r.start_date, r.interval_seconds as int);
        assert(0 <= quantity * u * r.amount) by (nonlinear_arith)
            requires
                0 <= quantity,
                0 <= u,
                0 <= r.amount,
        ;
        lemma_div_pos_is_pos(quantity * u * r.amount, ONE_PAYMENT_TOKEN as int);
    }
}

/// Floor division distributes over addition with a loss of at most one:
/// `x/d + y/d <= (x+y)/d <= x/d + y/d + 1`.
pub proof fn lemma_div_superadd(x: int, y: int, d: int)
    requires
        0 <= x,
        0 <= y,
        1 <= d,
    ensures
        x / d + y / d <= (x + y) / d <= x / d + y / d + 1,
{
    let qx = x / d;
    let qy = y / d;
    lemma_fundamental_div_mod(x, d);
    lemma_fundamental_div_mod(y, d);
    lemma_mod_division_less_than_divisor(x, d);
    lemma_mod_division_less_than_divisor(y, d);
    let rx = x % d;
    let ry = y % d;
    assert(x + y == (rx + ry) + (qx + qy) * d) by (nonlinear_arith)
        requires
            x == d * qx + rx,
            y == d * qy + ry,
    ;
    lemma_hoist_over_denominator(rx + ry, qx + qy, d as nat);
    lemma_div_pos_is_pos(rx + ry, d);
    assert((rx + ry) / d <= 1) by {
        lemma_div_is_ordered(rx + ry, 2 * d - 1, d);
        assert((2 * d - 1) / d == 1) by (nonlinear_arith)
            requires
                1 <= d,
        ;
    }
}

/// Conservation of one component under one claim, up to dust: what the
/// claim pays plus the claimer's share of what survives never exceeds the
/// claimer's share of the original component; and for an uncancelled claim
/// the loss is at most one unit of rounding dust.
pub proof fn law_claim_conserves_value(r: Release, quantity: u64, cancel_date: u64, now: u64)
    requires
        release_wf(r),
        quantity <= ONE_PAYMENT_TOKEN,
    ensures
        spec_claim_paid(r, quantity, cancel_date, now) + (match spec_claim_result(
            r,
            cancel_date,
            now,
        ) {
            Some(r2) => spec_quantity_share(quantity, release_value(r2)),
            None => 0,
        }) <= spec_quantity_share(quantity, release_value(r)),
        cancel_date == 0 ==> spec_claim_paid(r, quantity, cancel_date, now) + (
        match spec_claim_result(r, cancel_date, now) {
            Some(r2) => spec_quantity_share(quantity, release_value(r2)),
            None => 0,
        }) >= spec_quantity_share(quantity, release_value(r)) - 1,
{
    let one = ONE_PAYMENT_TOKEN as int;
    let a = r.amount as int;
    let t = release_total_units(r);
    lemma_release_units_pos(r);
    lemma_claim_release_bounds(r, quantity, cancel_date, now);
    let share_before = spec_quantity_share(quantity, release_value(r));
    assert(0 <= quantity * release_value(r)) by (nonlinear_arith)
        requires
            0 <= quantity,
            0 <= release_value(r),
    ;
    lemma_div_pos_is_pos(quantity * release_value(r), one);
    if spec_cancelled_before_start(r, cancel_date) {
        // dropped before it ever started: nothing paid, share forfeited
    } else if now <= r.start_date {
        // untouched: equality
    } else {
        let h = spec_claim_horizon(r, cancel_date, now);
        let u = spec_claim_units(r, cancel_date, now);
        assert(r.start_date < h <= r.end_date);
        lemma_div_pos_is_pos(h - r.start_date, r.interval_seconds as int);
        lemma_elapsed_units_monotone(h, r.end_date as int, r.start_date as int,
            r.interval_seconds as int);
        assert(0 <= u <= t);
        if u == 0 {
            // untouched: equality
        } else if cancel_date == 0 && now < r.end_date {
            // advanced: the paid intervals move out of the surviving value
            lemma_claim_release_advance(r, cancel_date, now);
            let r2 = spec_claim_result(r, cancel_date, now)->Some_0;
            assert(release_total_units(r2) == t - u);
            assert(release_value(r2) == a * (t - u));
            let x = quantity * u * a;
            let y = quantity * release_value(r2);
            assert(x + y == quantity * release_value(r)) by (nonlinear_arith)
                requires
                    release_value(r2) == a * (t - u),
                    release_value(r) == a * t,
                    x == quantity * u * a,
                    y == quantity * release_value(r2),
            ;
            assert(0 <= x) by (nonlinear_arith)
                requires
                    x == quantity * u * a,
                    0 <= quantity,
                    0 <= u,
                    0 <= a,
            ;
            assert(0 <= y) by (nonlinear_arith)
                requires
                    y == quantity * release_value(r2),
                    0 <= quantity,
                    0 <= release_value(r2),
            ;
            lemma_div_superadd(x, y, one);
        } else {
            // dropped: what was not settled is forfeited
            assert(quantity * u * a <= quantity * release_value(r)) by (nonlinear_arith)
                requires
                    0 <= quantity,
                    0 <= a,
                    0 <= u <= t,
                    release_value(r) == a * t,
            ;
            lemma_div_is_ordered(quantity * u * a, quantity * release_value(r), one);
            if cancel_date == 0 {
                // only reachable with now >= end: every interval is settled
                assert(h == r.end_date as int);
                assert(u == t);
                assert(quantity * u * a == quantity * release_value(r)) by (nonlinear_arith)
                    requires
                        u == t,
                        release_value(r) == a * t,
                ;
            }
        }
    }
}

/// One step of a component's claim history: the time of the claim, the
/// cancellation timestamp the ledger showed, and the title quantity
/// presented.
pub struct ClaimEvent {
    pub now: u64,
    pub cancel_date: u64,
    pub quantity: u64,
}

/// Everything a history of claims pays for one component: each claim settles
/// against what the previous one left standing, and a dropped component pays
/// nothing further.
pub open spec fn spec_claims_paid(r: Release, events: Seq<ClaimEvent>) -> int
    decreases events.len(),
{
    if events.len() == 0 {
        0
    } else {
        let e = events[0];
        spec_claim_paid(r, e.quantity, e.cancel_date, e.now) + (match spec_claim_result(
            r,
            e.cancel_date,
            e.now,
        ) {
            Some(r2) => spec_claims_paid(r2, events.drop_first()),
            None => 0,
        })
    }
}

/// Lifetime conservation of one component: however many claims are made
/// against it, at whatever times, quantities and cancellation states, they
/// never pay out more than the component's undissipated value in total.
pub proof fn law_claim_history_conserves_value(r: Release, events: Seq<ClaimEvent>)
    requires
        release_wf(r),
        forall|j: int|
            0 <= j < events.len() ==> (#[trigger] events[j]).quantity <= ONE_PAYMENT_TOKEN,
    ensures
        0 <= spec_claims_paid(r, events) <= release_value(r),
    decreases events.len(),
{
    let one = ONE_PAYMENT_TOKEN as int;
    lemma_release_value_nonneg(r);
    lemma_release_units_pos(r);
    if events.len() > 0 {
        let e = events[0];
        let rest = events.drop_first();
        assert(forall|j: int|
            0 <= j < rest.len() ==> #[trigger] rest[j] == events[j + 1]);
        lemma_claim_release_bounds(r, e.quantity, e.cancel_date, e.now);
        lemma_claim_paid_nonneg(r, e.quantity, e.cancel_date, e.now);
        match spec_claim_result(r, e.cancel_date, e.now) {
            Some(r2) => {
                law_claim_history_conserves_value(r2, rest);
                let paid = spec_claim_paid(r, e.quantity, e.cancel_date, e.now);
                if !spec_cancelled_before_start(r, e.cancel_date) && e.now > r.start_date
                    && spec_claim_units(r, e.cancel_date, e.now) != 0 && e.cancel_date == 0
                    && e.now < r.end_date {
                    // the claim settles u intervals and the survivor keeps
                    // the rest: together they stay within the value
                    lemma_claim_release_advance(r, e.cancel_date, e.now);
                    let a = r.amount as int;
                    let t = release_total_units(r);
                    let u = spec_claim_units(r, e.cancel_date, e.now);
                    assert(r.start_date < spec_claim_horizon(r, e.cancel_date, e.now));
                    lemma_div_pos_is_pos(
                        spec_claim_horizon(r, e.cancel_date, e.now) - r.start_date,
                        r.interval_seconds as int,
                    );
                    assert(release_value(r2) == a * (t - u));
                    assert(e.quantity * u * a <= one * (u * a)) by (nonlinear_arith)
                        requires
                            0 <= e.quantity <= one,
                            0 <= u,
                            0 <= a,
                    ;
                    lemma_div_is_ordered(e.quantity * u * a, one * (u * a), one);
                    vstd::arithmetic::div_mod::lemma_div_multiples_vanish(u * a, one);
                    assert(paid <= u * a);
                    assert(u * a + a * (t - u) == a * t) by (nonlinear_arith);
                } else {
                    // untouched: nothing was paid and nothing was lost
                    assert(r2 == r);
                    assert(paid == 0);
                }
            },
            None => {},
        }
    }
}

/// A settling claim pays at most its settled intervals at the full
/// per-interval rate.
proof fn lemma_paid_le_settled_value(r: Release, quantity: u64, cancel_date: u64, now: u64)
    requires
        release_wf(r),
        quantity <= ONE_PAYMENT_TOKEN,
        !spec_cancelled_before_start(r, cancel_date),
        now > r.start_date,
        spec_claim_units(r, cancel_date, now) != 0,
    ensures
        1 <= spec_claim_units(r, cancel_date, now),
        spec_claim_paid(r, quantity, cancel_date, now) <= r.amount * spec_claim_units(
            r,
            cancel_date,
            now,
        ),
{
    let one = ONE_PAYMENT_TOKEN as int;
    let a = r.amount as int;
    let h = spec_claim_horizon(r, cancel_date, now);
    let u = spec_claim_units(r, cancel_date, now);
    assert(r.start_date < h);
    lemma_div_pos_is_pos(h - r.start_date, r.interval_seconds as int);
    assert(quantity * u * a <= one * (u * a)) by (nonlinear_arith)
        requires
            0 <= quantity <= one,
            1 <= u,
            0 <= a,
    ;
    lemma_div_is_ordered(quantity * u * a, one * (u * a), one);
    vstd::arithmetic::div_mod::lemma_div_multiples_vanish(u * a, one);
    assert(u * a == a * u) by (nonlinear_arith);
}

/// The events that can reach an entitlement whose cancellation lands at
/// `t_c`: a claim settled before the cancellation observes no cancellation
/// and a clock not yet past `t_c`; every later claim observes `t_c`.
pub open spec fn spec_event_before_or_after_cancel(e: ClaimEvent, t_c: u64) -> bool {
    &&& e.quantity <= ONE_PAYMENT_TOKEN
    &&& ((e.cancel_date == 0 && e.now <= t_c) || e.cancel_date == t_c)
}

/// Claims against a component that evolved from `r0` by settling `m` whole
/// intervals, under a cancellation at `t_c` inside the window, pay at most
/// the still-unsettled intervals up to the cancellation timestamp.
proof fn lemma_capped_claims(r0: Release, r: Release, m: int, events: Seq<ClaimEvent>, t_c: u64)
    requires
        release_wf(r0),
        release_wf(r),
        r0.start_date < t_c < r0.end_date,
        r.end_date == r0.end_date,
        r.interval_seconds == r0.interval_seconds,
        r.amount == r0.amount,
        r.start_date == r0.start_date + m * r0.interval_seconds,
        0 <= m <= spec_elapsed_units(t_c as int, r0.start_date as int, r0.interval_seconds as int),
        forall|j: int|
            0 <= j < events.len() ==> spec_event_before_or_after_cancel(
                #[trigger] events[j],
                t_c,
            ),
    ensures
        spec_claims_paid(r, events) <= r0.amount * (spec_elapsed_units(
            t_c as int,
            r0.start_date as int,
            r0.interval_seconds as int,
        ) - m),
    decreases events.len(),
{
    let i = r0.interval_seconds as int;
    let s0 = r0.start_date as int;
    let a = r0.amount as int;
    let uc = spec_elapsed_units(t_c as int, s0, i);
    assert(0 <= a * (uc - m)) by (nonlinear_arith)
        requires
            0 <= a,
            m <= uc,
    ;
    if events.len() > 0 {
        let e = events[0];
        let rest = events.drop_first();
        assert(forall|j: int|
            0 <= j < rest.len() ==> #[trigger] rest[j] == events[j + 1]);
        lemma_claim_release_bounds(r, e.quantity, e.cancel_date, e.now);
        lemma_claim_paid_nonneg(r, e.quantity, e.cancel_date, e.now);
        let paid = spec_claim_paid(r, e.quantity, e.cancel_date, e.now);
        if spec_cancelled_before_start(r, e.cancel_date) {
            // dropped with nothing paid
        } else if e.now <= r.start_date || spec_claim_units(r, e.cancel_date, e.now) == 0 {
            // untouched: nothing paid, the same component carries on
            lemma_capped_claims(r0, r, m, rest, t_c);
        } else {
            let u = spec_claim_units(r, e.cancel_date, e.now);
            lemma_paid_le_settled_value(r, e.quantity, e.cancel_date, e.now);
            if e.cancel_date == 0 && e.now < r.end_date {
                // advanced: the settled intervals move out of the component,
                // and the new start still lies at or before the cancellation
                lemma_claim_release_advance(r, e.cancel_date, e.now);
                let r2 = spec_claim_result(r, e.cancel_date, e.now)->Some_0;
                crate::interval::lemma_aligned_boundary(
                    e.now as int,
                    r.start_date as int,
                    i,
                );
                assert(r2.start_date == r.start_date + i * u);
                assert(r2.start_date == s0 + (m + u) * i) by (nonlinear_arith)
                    requires
                        r2.start_date == r.start_date + i * u,
                        r.start_date == s0 + m * i,
                ;
                assert(r2.start_date <= e.now <= t_c);
                assert((m + u) * i <= t_c - s0);
                assert(m + u <= uc) by {
                    lemma_div_is_ordered((m + u) * i, t_c - s0, i);
                    vstd::arithmetic::div_mod::lemma_div_multiples_vanish(m + u, i);
                    assert((m + u) * i == i * (m + u)) by (nonlinear_arith);
                }
                lemma_capped_claims(r0, r2, m + u, rest, t_c);
                assert(a * u + a * (uc - (m + u)) == a * (uc - m)) by (nonlinear_arith);
            } else {
                // dropped after settling: everything settled lies at or
                // before the cancellation timestamp
                assert(e.cancel_date == t_c) by {
                    if e.cancel_date == 0 {
                        assert(e.now <= t_c < r.end_date);
                        assert(false);
                    }
                }
                let h = spec_claim_horizon(r, e.cancel_date, e.now);
                assert(h <= t_c);
                lemma_elapsed_units_monotone(h, t_c as int, r.start_date as int, i);
                assert(spec_elapsed_units(t_c as int, r.start_date as int, i) == uc - m) by {
                    vstd::arithmetic::div_mod::lemma_hoist_over_denominator(
                        t_c - s0 - m * i,
                        m,
                        i as nat,
                    );
                    assert(t_c - s0 - m * i + m * i == t_c - s0);
                }
                assert(u <= uc - m);
                assert(a * u <= a * (uc - m)) by (nonlinear_arith)
                    requires
                        0 <= a,
                        u <= uc - m,
                ;
            }
        }
    }
}

/// Full conservation of one cancelled entitlement component: everything its
/// claims ever pay, plus the refund its cancellation at `t_c` pays from the
/// issuance snapshot, never exceeds the component's undissipated value.
/// Claims settled before the cancellation observe a clock at or before
/// `t_c`; claims settled after it observe the recorded `t_c`.
pub proof fn law_cancelled_component_accounting(r: Release, events: Seq<ClaimEvent>, t_c: u64)
    requires
        release_wf(r),
        t_c > 0,
        forall|j: int|
            0 <= j < events.len() ==> spec_event_before_or_after_cancel(
                #[trigger] events[j],
                t_c,
            ),
    ensures
        spec_claims_paid(r, events) + crate::cancel::spec_release_refund(r, t_c)
            <= release_value(r),
{
    let i = r.interval_seconds as int;
    let s0 = r.start_date as int;
    let a = r.amount as int;
    let t = release_total_units(r);
    lemma_release_units_pos(r);
    crate::cancel::lemma_release_refund_bounds(r, t_c);
    if t_c >= r.end_date {
        // nothing refunded; the claims alone stay within the value
        law_claim_history_conserves_value(r, events);
    } else if t_c <= r.start_date {
        // cancelled before the start: the whole value is refunded and no
        // claim ever pays
        lemma_no_claims_before_start(r, events, t_c);
        assert(spec_claims_paid(r, events) == 0);
    } else {
        let uc = spec_elapsed_units(t_c as int, s0, i);
        lemma_div_pos_is_pos(t_c - s0, i);
        lemma_elapsed_units_monotone(t_c as int, r.end_date as int, s0, i);
        assert(0 <= uc <= t);
        assert(0 * i == 0) by (nonlinear_arith);
        assert(r.start_date == s0 + 0 * i);
        lemma_capped_claims(r, r, 0, events, t_c);
        // the refund covers exactly the intervals from the aligned boundary
        // of `t_c` to the end
        crate::interval::lemma_aligned_boundary(t_c as int, s0, i);
        let b = crate::interval::spec_aligned_boundary(t_c as int, s0, i);
        assert(b == s0 + i * uc);
        let es = crate::cancel::spec_refund_effective_start(r, t_c);
        assert(es == b);
        assert((r.end_date - es) % i == 0);
        assert(crate::cancel::spec_release_refund(r, t_c) == a * ((r.end_date - es) / i));
        assert(r.end_date - es == (r.end_date - s0) - i * uc);
        assert((r.end_date - s0) - i * uc == i * (t - uc)) by (nonlinear_arith)
            requires
                i * t == r.end_date - s0,
        ;
        vstd::arithmetic::div_mod::lemma_div_multiples_vanish(t - uc, i);
        assert(crate::cancel::spec_release_refund(r, t_c) == a * (t - uc));
        assert(a * (uc - 0) + a * (t - uc) == a * t) by (nonlinear_arith);
    }
}

/// No claim pays against a component cancelled before its start.
proof fn lemma_no_claims_before_start(r: Release, events: Seq<ClaimEvent>, t_c: u64)
    requires
        release_wf(r),
        0 < t_c <= r.start_date,
        forall|j: int|
            0 <= j < events.len() ==> spec_event_before_or_after_cancel(
                #[trigger] events[j],
                t_c,
            ),
    ensures
        spec_claims_paid(r, events) == 0,
    decreases events.len(),
{
    if events.len() > 0 {
        let e = events[0];
        let rest = events.drop_first();
        assert(forall|j: int|
            0 <= j < rest.len() ==> #[trigger] rest[j] == events[j + 1]);
        if e.cancel_date == t_c {
            assert(spec_cancelled_before_start(r, e.cancel_date));
        } else {
            assert(e.now <= t_c <= r.start_date);
            lemma_no_claims_before_start(r, rest, t_c);
        }
    }
}

/// A claim can only ever drop a component or advance its start to an
/// aligned boundary: whatever survives is still a whole number of intervals
/// long, with its end, interval and per-interval amount untouched.
pub proof fn law_claim_preserves_wf(r: Release, cancel_date: u64, now: u64)
    requires
        release_wf(r),
    ensures
        spec_claim_result(r, cancel_date, now) matches Some(r2) ==> release_wf(r2)
            && r2.end_date == r.end_date && r2.interval_seconds == r.interval_seconds && r2.amount
            == r.amount && r2.start_date >= r.start_date,
{
    lemma_claim_release_bounds(r, 0, cancel_date, now);
}

} // verus!
