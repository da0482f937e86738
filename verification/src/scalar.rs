//! Fixed-point scalars and the arithmetic on them.
//!
//! A scalar is a whole number of millionths: `ONE` stands for 1.0, and a
//! permanence or an active duty cycle lies between 0 and `ONE`.

use vstd::prelude::*;

verus! {

/// The fixed-point value of 1.0.
pub const ONE: u64 = 1_000_000;

/// A permanence raised by `step`, and held at 1.0 where it would pass it.
pub open spec fn raised(permanence: nat, step: nat) -> nat {
    if permanence + step >= ONE {
        ONE as nat
    } else {
        permanence + step
    }
}

/// A permanence lowered by `step`, and held at 0 where it would pass it.
pub open spec fn lowered(permanence: nat, step: nat) -> nat {
    if step >= permanence {
        0
    } else {
        (permanence - step) as nat
    }
}

/// The moving average over a window of `period` cycles, after one more
/// `sample`: `(average * (period - 1) + sample) / period`, rounded down.
pub open spec fn moving_average(average: nat, sample: nat, period: nat) -> nat
    recommends
        period >= 1,
{
    ((average * (period - 1) + sample) / (period as int)) as nat
}

/// Raises a permanence by `step`, clamped to 1.0.
pub fn raise(permanence: u64, step: u64) -> (r: u64)
    requires
        permanence <= ONE,
    ensures
        r == raised(permanence as nat, step as nat),
        r <= ONE,
{
    if step >= ONE - permanence {
        ONE
    } else {
        permanence + step
    }
}

/// Lowers a permanence by `step`, clamped to 0.
pub fn lower(permanence: u64, step: u64) -> (r: u64)
    ensures
        r == lowered(permanence as nat, step as nat),
        r <= permanence,
{
    if step >= permanence {
        0
    } else {
        permanence - step
    }
}

/// A moving average lies between the smaller and the larger of the old
/// average and the sample.
pub proof fn lemma_moving_average_between(average: nat, sample: nat, period: nat)
    requires
        period >= 1,
    ensures
        average <= sample ==> average <= moving_average(average, sample, period) <= sample,
        sample <= average ==> sample <= moving_average(average, sample, period) <= average,
{
    let p = period as int;
    let total = average * (p - 1) + sample;
    assert(average <= sample ==> average * p <= total <= sample * p) by (nonlinear_arith)
        requires
            p >= 1,
            total == average * (p - 1) + sample,
    ;
    assert(sample <= average ==> sample * p <= total <= average * p) by (nonlinear_arith)
        requires
            p >= 1,
            total == average * (p - 1) + sample,
    ;
    if average <= sample {
        vstd::arithmetic::div_mod::lemma_div_is_ordered(average * p, total, p);
        vstd::arithmetic::div_mod::lemma_div_is_ordered(total, sample * p, p);
    }
    if sample <= average {
        vstd::arithmetic::div_mod::lemma_div_is_ordered(sample * p, total, p);
        vstd::arithmetic::div_mod::lemma_div_is_ordered(total, average * p, p);
    }
    vstd::arithmetic::div_mod::lemma_div_multiples_vanish(average as int, p);
    vstd::arithmetic::div_mod::lemma_div_multiples_vanish(sample as int, p);
    assert(average * p == p * average) by (nonlinear_arith);
    assert(sample * p == p * sample) by (nonlinear_arith);
}

/// The moving average of `average` and `sample` over `period` cycles.
///
/// The quotient is put together from the quotients and remainders of the two
/// terms, so that no intermediate value leaves the 128 bits.
pub fn average_step(average: u128, sample: u128, period: u32) -> (r: u128)
    requires
        period >= 1,
    ensures
        r == moving_average(average as nat, sample as nat, period as nat),
{
    let p: u128 = period as u128;
    let qa: u128 = average / p;
    let ra: u128 = average % p;
    let qs: u128 = sample / p;
    let rs: u128 = sample % p;
    proof {
        lemma_average_split(average as int, sample as int, p as int);
        lemma_moving_average_between(average as nat, sample as nat, period as nat);
        assert(ra * (p - 1) <= 0xffff_ffff * 0xffff_ffff) by (nonlinear_arith)
            requires
                0 <= ra < p,
                1 <= p <= 0xffff_ffff,
        ;
        assert(0 <= qa * (p - 1) <= average) by (nonlinear_arith)
            requires
                qa == average / p,
                p >= 1,
                average >= 0,
                qa >= 0,
                qa * p <= average,
        ;
        assert(qa * p <= average) by {
            vstd::arithmetic::div_mod::lemma_fundamental_div_mod(average as int, p as int);
        }
    }
    let rest: u128 = (ra * (p - 1) + rs) / p;
    qa * (p - 1) + qs + rest
}

/// `(a * (p - 1) + s) / p`, put together from `a / p`, `a % p`, `s / p` and
/// `s % p`.
pub proof fn lemma_average_split(a: int, s: int, p: int)
    requires
        a >= 0,
        s >= 0,
        p >= 1,
    ensures
        (a * (p - 1) + s) / p == (a / p) * (p - 1) + s / p + ((a % p) * (p - 1) + s % p) / p,
        (a / p) * (p - 1) >= 0,
        s / p >= 0,
        ((a % p) * (p - 1) + s % p) / p >= 0,
{
    let qa = a / p;
    let ra = a % p;
    let qs = s / p;
    let rs = s % p;
    vstd::arithmetic::div_mod::lemma_fundamental_div_mod(a, p);
    vstd::arithmetic::div_mod::lemma_fundamental_div_mod(s, p);
    let whole = qa * (p - 1) + qs;
    let rest = ra * (p - 1) + rs;
    assert(a * (p - 1) + s == p * whole + rest) by (nonlinear_arith)
        requires
            a == p * qa + ra,
            s == p * qs + rs,
            whole == qa * (p - 1) + qs,
            rest == ra * (p - 1) + rs,
    ;
    assert(rest >= 0 && qa * (p - 1) >= 0) by (nonlinear_arith)
        requires
            rest == ra * (p - 1) + rs,
            ra >= 0,
            rs >= 0,
            p >= 1,
            qa >= 0,
    ;
    vstd::arithmetic::div_mod::lemma_div_multiples_vanish_fancy(whole, rest % p, p);
    vstd::arithmetic::div_mod::lemma_fundamental_div_mod(rest, p);
    vstd::arithmetic::div_mod::lemma_hoist_over_denominator(rest, whole, p as nat);
    assert(whole * p == p * whole) by (nonlinear_arith);
}

} // verus!
