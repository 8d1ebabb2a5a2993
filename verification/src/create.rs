use vstd::prelude::*;
use vstd::arithmetic::div_mod::lemma_div_is_ordered;
use vstd::arithmetic::div_mod::lemma_div_pos_is_pos;
use vstd::arithmetic::div_mod::lemma_div_multiples_vanish;
use crate::FEE_DENOMINATOR;
use crate::MIN_INTERVAL_RATE;
use crate::errors::PaymentError;
use crate::interval::lemma_div_mul_le;
use crate::interval::lemma_mul_div_split;
use crate::release::Release;
use crate::release::release_total_units;
use crate::release::release_value;
use crate::release::release_wf;
use crate::release::releases_value;
use crate::release::request_error;
use crate::release::request_valid;
use crate::release::lemma_release_units_pos;
use crate::release::lemma_releases_value_push;

verus! {

/// A requested amount after the creation-time tax, under floor division.
pub open spec fn spec_post_tax(amount: u128, fee: u64) -> int {
    amount * (FEE_DENOMINATOR - fee) / (FEE_DENOMINATOR as int)
}

/// A request's whole window, in seconds.
pub open spec fn spec_duration(r: Release) -> int {
    r.end_date - r.start_date
}

/// The per-interval payout of the component built from request `r`, for `n`
/// receivers: the post-tax amount spread over the window, split `n` ways,
/// rescaled to one interval — floored at each step, in exactly this
/// association.
pub open spec fn spec_per_interval(r: Release, fee: u64, n: int) -> int {
    spec_post_tax(r.amount, fee) / spec_duration(r) / n * r.interval_seconds
}

/// The post-tax value actually promised for request `r`, recomputed from the
/// floored per-interval rate; the difference to `spec_post_tax` is rounding
/// dust, which the tax payment silently collects.
pub open spec fn spec_recomputed_post_tax(r: Release, fee: u64, n: int) -> int {
    spec_per_interval(r, fee, n) * spec_duration(r) * n / (r.interval_seconds as int)
}

/// Whether a request falls under the dust floor: divisible payments whose
/// per-interval rate does not exceed the minimum are rejected.
pub open spec fn spec_rate_too_low(r: Release, fee: u64, n: int, payment: u128) -> bool {
    payment != 1 && spec_per_interval(r, fee, n) <= MIN_INTERVAL_RATE
}

/// The component issued for request `r`: the same window and interval, with
/// the per-interval post-tax amount.
pub open spec fn spec_built_release(r: Release, fee: u64, n: int) -> Release {
    Release {
        start_date: r.start_date,
        end_date: r.end_date,
        interval_seconds: r.interval_seconds,
        amount: spec_per_interval(r, fee, n) as u128,
    }
}

/// The component list issued for a request batch.
pub open spec fn spec_built_releases(rs: Seq<Release>, fee: u64, n: int) -> Seq<Release> {
    rs.map_values(|r: Release| spec_built_release(r, fee, n))
}

/// The sum of the requested (pre-tax) amounts, which must exhaust the
/// attached principal exactly.
pub open spec fn spec_sum_amounts(rs: Seq<Release>) -> int
    decreases rs.len(),
{
    if rs.len() == 0 {
        0
    } else {
        rs[0].amount + spec_sum_amounts(rs.drop_first())
    }
}

/// The sum of the recomputed post-tax values over a request batch.
pub open spec fn spec_total_post_tax(rs: Seq<Release>, fee: u64, n: int) -> int
    decreases rs.len(),
{
    if rs.len() == 0 {
        0
    } else {
        spec_recomputed_post_tax(rs[0], fee, n) + spec_total_post_tax(rs.drop_first(), fee, n)
    }
}

/// The first reason to reject any request of the batch, scanning in order.
pub open spec fn spec_first_request_error(
    rs: Seq<Release>,
    now: u64,
    fee: u64,
    n: int,
    payment: u128,
) -> Option<PaymentError>
    decreases rs.len(),
{
    if rs.len() == 0 {
        None
    } else if request_error(rs[0], now) is Some {
        request_error(rs[0], now)
    } else if spec_rate_too_low(rs[0], fee, n, payment) {
        Some(PaymentError::RateTooLow)
    } else {
        spec_first_request_error(rs.drop_first(), now, fee, n, payment)
    }
}

/// The first reason, if any, to reject a whole creation call, in the order
/// the engine checks them.
pub open spec fn spec_create_error(
    rs: Seq<Release>,
    n_receivers: int,
    now: u64,
    fee: u64,
    payment: u128,
) -> Option<PaymentError> {
    if rs.len() == 0 {
        Some(PaymentError::NoReleases)
    } else if n_receivers == 0 {
        Some(PaymentError::NoReceivers)
    } else if spec_first_request_error(rs, now, fee, n_receivers, payment) is Some {
        spec_first_request_error(rs, now, fee, n_receivers, payment)
    } else if spec_sum_amounts(rs) != payment {
        Some(PaymentError::AmountMismatch)
    } else {
        None
    }
}

/// `v` is the earliest start date of the batch.
pub open spec fn spec_is_window_start(v: u64, rs: Seq<Release>) -> bool {
    &&& exists|i: int| 0 <= i < rs.len() && (#[trigger] rs[i]).start_date == v
    &&& forall|i: int| 0 <= i < rs.len() ==> v <= (#[trigger] rs[i]).start_date
}

/// `v` is the latest end date of the batch.
pub open spec fn spec_is_window_end(v: u64, rs: Seq<Release>) -> bool {
    &&& exists|i: int| 0 <= i < rs.len() && (#[trigger] rs[i]).end_date == v
    &&& forall|i: int| 0 <= i < rs.len() ==> v >= (#[trigger] rs[i]).end_date
}

/// Creation arithmetic for a single valid request: every floored step stays
/// within the requested amount, the per-interval rate spread back over the
/// window and the receivers is what the engine promises, and `n` receivers
/// each get a component worth exactly a 1/`n` share of that promise.
pub proof fn lemma_request_arith(r: Release, fee: u64, n: int, now: u64)
    requires
        request_valid(r, now),
        fee <= FEE_DENOMINATOR,
        1 <= n,
    ensures
        release_wf(spec_built_release(r, fee, n)),
        0 <= spec_per_interval(r, fee, n) <= spec_post_tax(r.amount, fee) <= r.amount,
        0 <= spec_recomputed_post_tax(r, fee, n) <= spec_post_tax(r.amount, fee),
        release_value(spec_built_release(r, fee, n)) * n == spec_recomputed_post_tax(r, fee, n),
        0 <= release_value(spec_built_release(r, fee, n)) <= spec_recomputed_post_tax(r, fee, n),
        spec_post_tax(r.amount, fee) == (r.amount as int / (FEE_DENOMINATOR as int)) * ((
        FEE_DENOMINATOR - fee) as int) + ((r.amount as int % (FEE_DENOMINATOR as int)) * ((
        FEE_DENOMINATOR - fee) as int)) / (FEE_DENOMINATOR as int),
        spec_recomputed_post_tax(r, fee, n) == (spec_post_tax(r.amount, fee) / spec_duration(r) / n
            * n) * spec_duration(r),
{
    let dur = spec_duration(r);
    let i = r.interval_seconds as int;
    let pt = spec_post_tax(r.amount, fee);
    let x = pt / dur;
    let y = x / n;
    let api = spec_per_interval(r, fee, n);
    assert(release_wf(r));
    lemma_release_units_pos(r);
    let t = release_total_units(r);
    assert(i * t == dur && 1 <= t);
    assert(i <= dur) by (nonlinear_arith)
        requires
            i * t == dur,
            1 <= t,
            1 <= i,
    ;
    lemma_mul_div_split(r.amount as int, (FEE_DENOMINATOR - fee) as int, FEE_DENOMINATOR as int);
    assert(0 <= pt <= r.amount);
    lemma_div_pos_is_pos(pt, dur);
    lemma_div_pos_is_pos(x, n);
    lemma_div_mul_le(pt, dur, i);
    assert(0 <= y <= x);
    assert(api == y * i);
    assert(0 <= y * i <= x * i) by (nonlinear_arith)
        requires
            0 <= y <= x,
            0 <= i,
    ;
    assert(x * i <= pt) by {
        lemma_div_mul_le(pt, dur, i);
    }
    // the recomputed total: (y * i) * dur * n / i == (y * n) * dur
    let z = y * n;
    lemma_div_mul_le(x, n, n);
    assert(z <= x);
    assert(api * dur * n == i * (z * dur)) by (nonlinear_arith)
        requires
            api == y * i,
            z == y * n,
    ;
    lemma_div_multiples_vanish(z * dur, i);
    assert(spec_recomputed_post_tax(r, fee, n) == z * dur);
    assert(0 <= z * dur <= x * dur) by (nonlinear_arith)
        requires
            0 <= z <= x,
            0 < dur,
    ;
    assert(x * dur <= pt) by {
        lemma_div_mul_le(pt, dur, dur);
    }
    // the built component's value: (y * i) * (dur / i) == y * dur
    let b = spec_built_release(r, fee, n);
    assert(b.amount == api as u128);
    assert(0 <= api <= u128::MAX);
    assert(b.amount == api);
    assert(release_total_units(b) == t);
    assert(release_value(b) == api * t);
    assert(api * t * n == z * dur) by (nonlinear_arith)
        requires
            api == y * i,
            z == y * n,
            i * t == dur,
    ;
    assert(release_value(b) * n == spec_recomputed_post_tax(r, fee, n));
    assert(0 <= release_value(b)) by (nonlinear_arith)
        requires
            0 <= api,
            0 <= t,
            release_value(b) == api * t,
    ;
    assert(release_value(b) <= release_value(b) * n) by (nonlinear_arith)
        requires
            0 <= release_value(b),
            1 <= n,
    ;
}

/// Batch-level creation arithmetic: the issued components are well-formed,
/// their combined per-receiver value times the receiver count is exactly the
/// recomputed post-tax total, and that total never exceeds the requested
/// sum.
pub proof fn lemma_batch_arith(rs: Seq<Release>, fee: u64, n: int, now: u64)
    requires
        forall|i: int| 0 <= i < rs.len() ==> request_valid(#[trigger] rs[i], now),
        fee <= FEE_DENOMINATOR,
        1 <= n,
    ensures
        forall|i: int|
            0 <= i < rs.len() ==> release_wf(#[trigger] spec_built_releases(rs, fee, n)[i]),
        releases_value(spec_built_releases(rs, fee, n)) * n == spec_total_post_tax(rs, fee, n),
        0 <= releases_value(spec_built_releases(rs, fee, n)) <= spec_total_post_tax(rs, fee, n),
        spec_total_post_tax(rs, fee, n) <= spec_sum_amounts(rs),
    decreases rs.len(),
{
    let built = spec_built_releases(rs, fee, n);
    if rs.len() == 0 {
        assert(built =~= Seq::<Release>::empty());
        assert(releases_value(built) == 0);
        assert(spec_total_post_tax(rs, fee, n) == 0);
        assert(releases_value(built) * n == 0) by (nonlinear_arith)
            requires
                releases_value(built) == 0,
        ;
    } else {
        let tail = rs.drop_first();
        assert(forall|i: int| 0 <= i < tail.len() ==> request_valid(#[trigger] tail[i], now))
            by {
            assert(forall|i: int|
                0 <= i < tail.len() ==> #[trigger] tail[i] == rs[i + 1]);
        }
        lemma_batch_arith(tail, fee, n, now);
        lemma_request_arith(rs[0], fee, n, now);
        assert(built[0] == spec_built_release(rs[0], fee, n));
        assert(built.drop_first() =~= spec_built_releases(tail, fee, n));
        assert(releases_value(built) == release_value(built[0]) + releases_value(
            built.drop_first(),
        ));
        let v0 = release_value(built[0]);
        let vt = releases_value(spec_built_releases(tail, fee, n));
        assert((v0 + vt) * n == v0 * n + vt * n) by (nonlinear_arith);
        assert(v0 * n == spec_recomputed_post_tax(rs[0], fee, n));
        assert(vt * n == spec_total_post_tax(tail, fee, n));
        assert(releases_value(built) == v0 + vt);
        assert(spec_total_post_tax(rs, fee, n) == spec_recomputed_post_tax(rs[0], fee, n)
            + spec_total_post_tax(tail, fee, n));
        assert(releases_value(built) * n == (v0 + vt) * n);
        assert(releases_value(built) * n == spec_total_post_tax(rs, fee, n));
        assert(0 <= releases_value(built));
        assert(releases_value(built) <= releases_value(built) * n) by (nonlinear_arith)
            requires
                0 <= releases_value(built),
                1 <= n,
        ;
    }
}

/// Appending a request extends both batch sums in the obvious way.
pub proof fn lemma_create_sums_push(rs: Seq<Release>, r: Release, fee: u64, n: int)
    ensures
        spec_sum_amounts(rs.push(r)) == spec_sum_amounts(rs) + r.amount,
        spec_total_post_tax(rs.push(r), fee, n) == spec_total_post_tax(rs, fee, n)
            + spec_recomputed_post_tax(r, fee, n),
    decreases rs.len(),
{
    if rs.len() == 0 {
        assert(rs.push(r).drop_first() =~= Seq::<Release>::empty());
        assert(rs.push(r)[0] == r);
        assert(spec_sum_amounts(rs) == 0);
        assert(spec_total_post_tax(rs, fee, n) == 0);
        assert(spec_sum_amounts(Seq::<Release>::empty()) == 0);
        assert(spec_total_post_tax(Seq::<Release>::empty(), fee, n) == 0);
    } else {
        assert(rs.push(r).drop_first() =~= rs.drop_first().push(r));
        assert(rs.push(r)[0] == rs[0]);
        lemma_create_sums_push(rs.drop_first(), r, fee, n);
        assert(spec_sum_amounts(rs.push(r)) == rs[0].amount + spec_sum_amounts(
            rs.drop_first().push(r),
        ));
        assert(spec_sum_amounts(rs) == rs[0].amount + spec_sum_amounts(rs.drop_first()));
        assert(spec_total_post_tax(rs.push(r), fee, n) == spec_recomputed_post_tax(rs[0], fee, n)
            + spec_total_post_tax(rs.drop_first().push(r), fee, n));
        assert(spec_total_post_tax(rs, fee, n) == spec_recomputed_post_tax(rs[0], fee, n)
            + spec_total_post_tax(rs.drop_first(), fee, n));
    }
}

/// While the scan has found no error in the first `k` requests, the first
/// error of the whole batch is the first error of the rest.
pub proof fn lemma_first_error_step(
    rs: Seq<Release>,
    k: int,
    now: u64,
    fee: u64,
    n: int,
    payment: u128,
)
    requires
        0 <= k < rs.len(),
        request_error(rs[k], now) is None,
        !spec_rate_too_low(rs[k], fee, n, payment),
    ensures
        spec_first_request_error(rs.skip(k), now, fee, n, payment) == spec_first_request_error(
            rs.skip(k + 1),
            now,
            fee,
            n,
            payment,
        ),
{
    assert(rs.skip(k)[0] == rs[k]);
    assert(rs.skip(k).drop_first() =~= rs.skip(k + 1));
}

} // verus!
