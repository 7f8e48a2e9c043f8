//! Whole numbers as double-precision arithmetic rounds them.
//!
//! A double keeps 53 binary digits. Scaling by a power of two changes none of
//! them, so products of doubles can be followed exactly in whole numbers.

use vstd::prelude::*;

verus! {

/// Two to the power 53: up to here every whole number is a double.
pub const DOUBLE_SPAN: u128 = 0x20_0000_0000_0000;

/// The distance between neighbouring doubles around `p`: the power of two that
/// leaves 53 binary digits of `p`.
pub open spec fn double_unit(p: nat) -> nat
    decreases p,
{
    if p < DOUBLE_SPAN {
        1
    } else {
        2 * double_unit(p / 2)
    }
}

/// The double nearest to `p`; halfway between two, the one whose last binary
/// digit is zero.
pub open spec fn nearest_double(p: nat) -> nat {
    let unit = double_unit(p);
    let below = p / unit;
    let rest = p % unit;
    if 2 * rest > unit || (2 * rest == unit && below % 2 == 1) {
        (below + 1) * unit
    } else {
        below * unit
    }
}

/// A unit is positive, and it leaves 53 binary digits.
pub proof fn lemma_double_unit(p: nat)
    ensures
        double_unit(p) >= 1,
        p < DOUBLE_SPAN * double_unit(p),
        p >= DOUBLE_SPAN ==> DOUBLE_SPAN * double_unit(p) <= 2 * p,
    decreases p,
{
    if p >= DOUBLE_SPAN {
        lemma_double_unit(p / 2);
    }
}

/// Units grow with the number, and by a factor of two at least.
proof fn lemma_double_units_grow(p: nat, q: nat)
    requires
        p <= q,
    ensures
        double_unit(p) == double_unit(q) || 2 * double_unit(p) <= double_unit(q),
    decreases q,
{
    if p >= DOUBLE_SPAN {
        lemma_double_units_grow(p / 2, q / 2);
    } else if q >= DOUBLE_SPAN {
        lemma_double_unit(q / 2);
    }
}

/// The two doubles around `p`, one of which is the nearest.
proof fn lemma_nearest_double_around(p: nat)
    ensures
        ({
            let unit = double_unit(p);
            let below = p / unit;
            &&& p == below * unit + p % unit
            &&& p % unit < unit
            &&& below * unit <= nearest_double(p) <= (below + 1) * unit
            &&& (below + 1) * unit == below * unit + unit
            &&& below < DOUBLE_SPAN
        }),
{
    let unit = double_unit(p);
    let below = p / unit;
    lemma_double_unit(p);
    vstd::arithmetic::div_mod::lemma_fundamental_div_mod(p as int, unit as int);
    assert(p % unit < unit && unit * below == below * unit && (below + 1) * unit == below * unit
        + unit) by (nonlinear_arith)
        requires
            unit >= 1,
            below == p / unit,
    ;
    assert(below < DOUBLE_SPAN) by (nonlinear_arith)
        requires
            unit >= 1,
            below * unit <= p,
            p < DOUBLE_SPAN * unit,
    ;
}

/// Up to two to the power 53, numbers are doubles.
pub proof fn lemma_small_numbers_are_doubles(p: nat)
    requires
        p <= DOUBLE_SPAN,
    ensures
        nearest_double(p) == p,
{
    if p == DOUBLE_SPAN {
        assert(double_unit(p / 2) == 1);
        assert(double_unit(p) == 2);
        assert((p / 2) * 2 == p && p % 2 == 0);
    } else {
        assert((p / 1) * 1 == p && p % 1 == 0);
    }
}

/// Rounding keeps the order.
pub proof fn lemma_nearest_double_grows(p: nat, q: nat)
    requires
        p <= q,
    ensures
        nearest_double(p) <= nearest_double(q),
{
    let (u, v) = (double_unit(p), double_unit(q));
    let (a, b) = (p / u, q / v);
    lemma_double_unit(p);
    lemma_double_unit(q);
    lemma_double_units_grow(p, q);
    lemma_nearest_double_around(p);
    lemma_nearest_double_around(q);
    if u == v {
        assert(a <= b) by (nonlinear_arith)
            requires
                a * u <= p <= q,
                q < (b + 1) * u,
                u >= 1,
        ;
        if a < b {
            assert((a + 1) * u <= b * u) by (nonlinear_arith)
                requires
                    a + 1 <= b,
            ;
        }
    } else {
        assert((a + 1) * u <= DOUBLE_SPAN * u) by (nonlinear_arith)
            requires
                a < DOUBLE_SPAN,
        ;
        assert(q >= DOUBLE_SPAN);
        assert(DOUBLE_SPAN * u <= b * v) by {
            // Half the span, times the larger unit, is a multiple of it below `q`.
            assert(DOUBLE_SPAN / 2 <= b) by (nonlinear_arith)
                requires
                    DOUBLE_SPAN * v <= 2 * q,
                    q < (b + 1) * v,
                    v >= 1,
            ;
            assert((DOUBLE_SPAN / 2) * v <= b * v) by (nonlinear_arith)
                requires
                    DOUBLE_SPAN / 2 <= b,
            ;
            assert((DOUBLE_SPAN / 2) * (2 * u) <= (DOUBLE_SPAN / 2) * v) by (nonlinear_arith)
                requires
                    2 * u <= v,
            ;
        }
    }
}

/// Rounding twice a number gives twice the rounded number.
pub proof fn lemma_nearest_double_of_twice(p: nat)
    ensures
        nearest_double(2 * p) == 2 * nearest_double(p),
{
    if 2 * p <= DOUBLE_SPAN {
        lemma_small_numbers_are_doubles(p);
        lemma_small_numbers_are_doubles(2 * p);
    } else {
        assert((2 * p) / 2 == p);
        let unit = double_unit(p);
        lemma_double_unit(p);
        assert(double_unit(2 * p) == 2 * unit);
        vstd::arithmetic::div_mod::lemma_div_multiples_vanish_quotient(2, p as int, unit as int);
        vstd::arithmetic::div_mod::lemma_truncate_middle(p as int, 2, unit as int);
        let below = p / unit;
        assert((below + 1) * (2 * unit) == 2 * ((below + 1) * unit) && below * (2 * unit) == 2 * (
        below * unit)) by (nonlinear_arith);
    }
}

/// Rounding commutes with scaling by a power of two.
pub proof fn lemma_nearest_double_scales(p: nat, e: nat)
    ensures
        nearest_double(vstd::arithmetic::power2::pow2(e) * p) == vstd::arithmetic::power2::pow2(e)
            * nearest_double(p),
    decreases e,
{
    if e == 0 {
        vstd::arithmetic::power2::lemma2_to64();
    } else {
        let half = vstd::arithmetic::power2::pow2((e - 1) as nat);
        vstd::arithmetic::power2::lemma_pow2_unfold(e);
        lemma_nearest_double_scales(p, (e - 1) as nat);
        lemma_nearest_double_of_twice(half * p);
        assert((2 * half) * p == 2 * (half * p) && (2 * half) * nearest_double(p) == 2 * (half
            * nearest_double(p))) by (nonlinear_arith);
    }
}

/// Rounding adds no more than one part in two to the power 53.
pub proof fn lemma_nearest_double_is_close(p: nat)
    ensures
        DOUBLE_SPAN * nearest_double(p) <= (DOUBLE_SPAN + 1) * p,
{
    lemma_double_unit(p);
    lemma_nearest_double_around(p);
    if p < DOUBLE_SPAN {
        lemma_small_numbers_are_doubles(p);
    }
}

/// Rounding moves a number by half a unit at most, up or down.
pub proof fn lemma_nearest_double_within_half_a_unit(p: nat)
    ensures
        2 * nearest_double(p) <= 2 * p + double_unit(p),
        2 * p <= 2 * nearest_double(p) + double_unit(p),
{
    let unit = double_unit(p);
    let floor = (p / unit) * unit;
    let rest = p % unit;
    let rounded = nearest_double(p);
    lemma_nearest_double_around(p);
    assert(2 * rounded <= 2 * p + unit && 2 * p <= 2 * rounded + unit) by (nonlinear_arith)
        requires
            p == floor + rest,
            rest < unit,
            (rounded == floor + unit && 2 * rest >= unit) || (rounded == floor && 2 * rest <= unit),
    ;
}

/// What a number rounds to is a multiple of its unit; the factor is returned.
pub proof fn lemma_nearest_double_is_multiple(p: nat) -> (factor: nat)
    ensures
        nearest_double(p) == factor * double_unit(p),
{
    let unit = double_unit(p);
    let below = p / unit;
    if nearest_double(p) == below * unit {
        below
    } else {
        below + 1
    }
}

/// The unit of a number divides every power of two that leaves no more than 53
/// binary digits of it; the quotient is returned.
pub proof fn lemma_unit_divides(p: nat, e: nat) -> (times: nat)
    requires
        p < DOUBLE_SPAN * vstd::arithmetic::power2::pow2(e),
    ensures
        vstd::arithmetic::power2::pow2(e) == times * double_unit(p),
        times >= 1,
    decreases p,
{
    if p < DOUBLE_SPAN {
        let power = vstd::arithmetic::power2::pow2(e);
        vstd::arithmetic::power2::lemma_pow2_pos(e);
        assert(power * 1 == power);
        power
    } else {
        vstd::arithmetic::power2::lemma2_to64();
        assert(e > 0);
        vstd::arithmetic::power2::lemma_pow2_unfold(e);
        let times = lemma_unit_divides(p / 2, (e - 1) as nat);
        let unit = double_unit(p / 2);
        assert(2 * (times * unit) == times * (2 * unit)) by (nonlinear_arith);
        times
    }
}

/// The power of two that leaves exactly 53 binary digits of a number is its unit.
pub proof fn lemma_unit_is_power(p: nat, e: nat)
    requires
        DOUBLE_SPAN * vstd::arithmetic::power2::pow2(e) <= 2 * p,
        p < DOUBLE_SPAN * vstd::arithmetic::power2::pow2(e),
    ensures
        double_unit(p) == vstd::arithmetic::power2::pow2(e),
{
    let power = vstd::arithmetic::power2::pow2(e);
    let unit = double_unit(p);
    let times = lemma_unit_divides(p, e);
    lemma_double_unit(p);
    assert(power < 2 * unit);
    assert(times == 1) by (nonlinear_arith)
        requires
            power == times * unit,
            power < 2 * unit,
            times >= 1,
    ;
}

/// A multiple of the unit that is less than half a unit above a number is what the
/// number rounds to.
pub proof fn lemma_rounds_up_to_near_multiple(p: nat, factor: nat, target: nat)
    requires
        target == factor * double_unit(p),
        p <= target,
        2 * (target - p) < double_unit(p),
    ensures
        nearest_double(p) == target,
{
    let unit = double_unit(p);
    let below = p / unit;
    lemma_double_unit(p);
    lemma_nearest_double_around(p);
    assert(factor == below || factor == below + 1) by (nonlinear_arith)
        requires
            factor * unit < (below + 1) * unit + unit,
            below * unit <= factor * unit,
            unit >= 1,
    ;
}

/// Rounding keeps the 53 leading binary digits `digits` of a number, and adds one
/// to them if more than half of the last one's worth follows them; if exactly half
/// of it follows, one is added to odd digits only.
pub proof fn law_rounding_keeps_53_digits(digits: nat, e: nat, rest: nat)
    requires
        DOUBLE_SPAN <= 2 * digits,
        digits < DOUBLE_SPAN,
        rest < vstd::arithmetic::power2::pow2(e),
    ensures
        ({
            let worth = vstd::arithmetic::power2::pow2(e);
            let kept = if 2 * rest > worth || (2 * rest == worth && digits % 2 == 1) {
                digits + 1
            } else {
                digits
            };
            nearest_double(digits * worth + rest) == kept * worth
        }),
{
    let worth = vstd::arithmetic::power2::pow2(e);
    let p = digits * worth + rest;
    assert(DOUBLE_SPAN * worth <= 2 * p && p < DOUBLE_SPAN * worth) by (nonlinear_arith)
        requires
            DOUBLE_SPAN <= 2 * digits,
            digits + 1 <= DOUBLE_SPAN,
            rest < worth,
            p == digits * worth + rest,
    ;
    lemma_unit_is_power(p, e);
    vstd::arithmetic::div_mod::lemma_fundamental_div_mod_converse(
        p as int,
        worth as int,
        digits as int,
        rest as int,
    );
}

/// The unit around `p`.
fn find_double_unit(p: u128) -> (unit: u128)
    ensures
        unit == double_unit(p as nat),
    decreases p,
{
    if p < DOUBLE_SPAN {
        1
    } else {
        proof {
            lemma_double_unit(p as nat);
        }
        2 * find_double_unit(p / 2)
    }
}

/// The double nearest to `p`.
pub fn round_to_double(p: u128) -> (rounded: u128)
    requires
        nearest_double(p as nat) <= u128::MAX,
    ensures
        rounded == nearest_double(p as nat),
{
    let unit: u128 = find_double_unit(p);
    proof {
        lemma_double_unit(p as nat);
        lemma_nearest_double_around(p as nat);
    }
    let below: u128 = p / unit;
    let rest: u128 = p % unit;
    if rest > unit - rest || (rest == unit - rest && below % 2 == 1) {
        (below + 1) * unit
    } else {
        below * unit
    }
}

} // verus!
