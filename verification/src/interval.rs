use vstd::prelude::*;
use vstd::arithmetic::div_mod::lemma_fundamental_div_mod;
use vstd::arithmetic::div_mod::lemma_mod_division_less_than_divisor;
use vstd::arithmetic::div_mod::lemma_mod_multiples_basic;
use vstd::arithmetic::div_mod::lemma_div_is_ordered;
use vstd::arithmetic::div_mod::lemma_div_pos_is_pos;
use vstd::arithmetic::mul::lemma_mul_nonnegative;
use vstd::arithmetic::mul::lemma_mul_is_commutative;

verus! {

/// The most recent interval boundary at or before `now`, counting interval
/// lengths from `start`.
pub open spec fn spec_aligned_boundary(now: int, start: int, interval: int) -> int {
    now - ((now - start) % interval)
}

/// Whole intervals elapsed between `start` and `horizon`, under floor
/// division.
pub open spec fn spec_elapsed_units(horizon: int, start: int, interval: int) -> int {
    (horizon - start) / interval
}

/// The aligned boundary lies in `[start, now]`, is itself aligned, and sits
/// exactly `spec_elapsed_units(now, ..)` whole intervals after `start`.
pub proof fn lemma_aligned_boundary(now: int, start: int, interval: int)
    requires
        start <= now,
        1 <= interval,
    ensures
        start <= spec_aligned_boundary(now, start, interval) <= now,
        spec_aligned_boundary(now, start, interval) == start + interval * spec_elapsed_units(
            now,
            start,
            interval,
        ),
        (spec_aligned_boundary(now, start, interval) - start) % interval == 0,
        spec_elapsed_units(now, start, interval) >= 0,
{
    let d = now - start;
    let q = d / interval;
    lemma_mod_division_less_than_divisor(d, interval);
    lemma_fundamental_div_mod(d, interval);
    lemma_div_pos_is_pos(d, interval);
    lemma_mul_nonnegative(interval, q);
    lemma_mod_multiples_basic(q, interval);
    lemma_mul_is_commutative(q, interval);
}

/// A later horizon never yields fewer elapsed intervals.
pub proof fn lemma_elapsed_units_monotone(h1: int, h2: int, start: int, interval: int)
    requires
        h1 <= h2,
        1 <= interval,
    ensures
        spec_elapsed_units(h1, start, interval) <= spec_elapsed_units(h2, start, interval),
{
    lemma_div_is_ordered(h1 - start, h2 - start, interval);
}

/// Advancing `start` to the aligned boundary keeps the distance to any
/// end date that was a whole number of intervals away a whole number of
/// intervals away.
pub proof fn lemma_aligned_boundary_keeps_alignment(now: int, start: int, end: int, interval: int)
    requires
        start <= now,
        1 <= interval,
        (end - start) % interval == 0,
    ensures
        (end - spec_aligned_boundary(now, start, interval)) % interval == 0,
{
    lemma_aligned_boundary(now, start, interval);
    let b = spec_aligned_boundary(now, start, interval);
    let q = spec_elapsed_units(now, start, interval);
    assert(end - b == (end - start) - interval * q);
    lemma_sub_any_multiple_mod(end - start, q, interval);
}

/// Subtracting any number of whole intervals does not change a residue of
/// zero.
pub proof fn lemma_sub_any_multiple_mod(x: int, k: int, m: int)
    requires
        1 <= m,
        x % m == 0,
    ensures
        (x - m * k) % m == 0,
{
    lemma_fundamental_div_mod(x, m);
    assert(x == m * (x / m));
    assert(x - m * k == m * (x / m - k)) by (nonlinear_arith)
        requires
            x == m * (x / m),
    ;
    lemma_mod_multiples_basic(x / m - k, m);
    lemma_mul_is_commutative(x / m - k, m);
}

/// Exact division: when `m` divides `x`, the quotient times `m` gives back
/// `x`.
pub proof fn lemma_exact_div(x: int, m: int)
    requires
        1 <= m,
        x % m == 0,
    ensures
        m * (x / m) == x,
{
    lemma_fundamental_div_mod(x, m);
}

/// Splitting a scaled floor division: `(a * q) / d` can be computed without
/// forming the full product, by dividing `a` first and scaling its remainder
/// separately.  For `q <= d` the result never exceeds `a`.
pub proof fn lemma_mul_div_split(a: int, q: int, d: int)
    requires
        0 <= a,
        0 <= q <= d,
        1 <= d,
    ensures
        (a / d) * q + ((a % d) * q) / d == (a * q) / d,
        (a * q) / d <= a,
        0 <= (a * q) / d,
{
    let b = a / d;
    let r = a % d;
    lemma_fundamental_div_mod(a, d);
    lemma_mod_division_less_than_divisor(a, d);
    assert(a * q == r * q + (b * q) * d) by (nonlinear_arith)
        requires
            a == d * b + r,
    ;
    vstd::arithmetic::div_mod::lemma_hoist_over_denominator(r * q, b * q, d as nat);
    assert(a * q <= a * d) by (nonlinear_arith)
        requires
            0 <= a,
            q <= d,
    ;
    lemma_div_is_ordered(a * q, a * d, d);
    vstd::arithmetic::div_mod::lemma_div_multiples_vanish(a, d);
    lemma_mul_is_commutative(a, d);
    lemma_mul_nonnegative(a, q);
    lemma_div_pos_is_pos(a * q, d);
}

/// Dividing by a duration and scaling back by a part of it can only shrink:
/// `(x / dur) * i <= x` whenever `i <= dur`.
pub proof fn lemma_div_mul_le(x: int, dur: int, i: int)
    requires
        0 <= x,
        1 <= i,
        i <= dur,
    ensures
        0 <= (x / dur) * i <= x,
{
    lemma_fundamental_div_mod(x, dur);
    lemma_mod_division_less_than_divisor(x, dur);
    lemma_div_pos_is_pos(x, dur);
    assert((x / dur) * i <= (x / dur) * dur) by (nonlinear_arith)
        requires
            0 <= x / dur,
            i <= dur,
    ;
    lemma_mul_nonnegative(x / dur, i);
    assert(x == dur * (x / dur) + x % dur);
    lemma_mul_is_commutative(x / dur, dur);
}

/// When `i` divides `t` exactly, multiplying first and dividing after loses
/// nothing: `(a * t) / i == a * (t / i)`.
pub proof fn lemma_mul_exact_div(a: int, t: int, i: int)
    requires
        0 <= a,
        0 <= t,
        1 <= i,
        t % i == 0,
    ensures
        (a * t) / i == a * (t / i),
{
    lemma_fundamental_div_mod(t, i);
    assert(a * t == i * (a * (t / i))) by (nonlinear_arith)
        requires
            t == i * (t / i),
    ;
    vstd::arithmetic::div_mod::lemma_div_multiples_vanish(a * (t / i), i);
}

/// The aligned boundary, computed on machine integers.
pub fn aligned_boundary(now: u64, start: u64, interval: u64) -> (r: u64)
    requires
        start <= now,
        1 <= interval,
    ensures
        r == spec_aligned_boundary(now as int, start as int, interval as int),
        start <= r <= now,
{
    proof {
        lemma_aligned_boundary(now as int, start as int, interval as int);
    }
    now - ((now - start) % interval)
}

} // verus!
