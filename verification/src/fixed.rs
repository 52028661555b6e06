//! Fixed-point quantities and the rounding rules used on them.
//!
//! A quantity with a fractional part (a timing offset in milliseconds, a
//! beat length, a slider length in pixels, a velocity multiplier) is held as
//! a whole number of steps, `SCALE` steps to the unit. Tempi are held in
//! thousandths of a beat per minute.
//!
//! A time is held in steps of a millisecond. Where a record holds a time in
//! seconds as well, it holds it in steps of a ten-millionth of a second,
//! which are as long: the count is the same, and nothing is rounded.

use vstd::arithmetic::div_mod::lemma_fundamental_div_mod;
use vstd::arithmetic::div_mod::lemma_mod_pos_bound;
use vstd::prelude::*;

verus! {

/// Steps per unit: four decimal places.
pub const SCALE: i64 = 10_000;

/// The quotient `n / d` rounded to the nearest integer, a tie going away
/// from zero.
pub open spec fn div_round(n: int, d: int) -> int
    recommends
        d > 0,
{
    if n >= 0 {
        (2 * n + d) / (2 * d)
    } else {
        -((2 * (-n) + d) / (2 * d))
    }
}

/// The quotient `n / d` with its fractional part dropped.
pub open spec fn div_trunc(n: int, d: int) -> int
    recommends
        d > 0,
{
    if n >= 0 {
        n / d
    } else {
        -((-n) / d)
    }
}

/// A whole number of units as steps.
pub open spec fn steps_of(units: int) -> int {
    units * 10_000
}

proof fn lemma_div_round_pos(a: int, d: int)
    requires
        a >= 0,
        d > 0,
    ensures
        -d < 2 * (div_round(a, d) * d - a) <= d,
        0 <= div_round(a, d) <= a,
{
    let x: int = 2 * a + d;
    let m: int = 2 * d;
    let q: int = x / m;
    let r: int = x % m;
    lemma_fundamental_div_mod(x, m);
    lemma_mod_pos_bound(x, m);
    assert(m * q == 2 * (q * d)) by (nonlinear_arith)
        requires
            m == 2 * d,
    ;
    assert(q >= 0) by (nonlinear_arith)
        requires
            m * q + r == x,
            x >= 0,
            r < m,
            m > 0,
    ;
    assert(q <= a) by (nonlinear_arith)
        requires
            m * q + r == 2 * a + d,
            m == 2 * d,
            r >= 0,
            d > 0,
            a >= 0,
    ;
}

/// `div_round` is within half a unit of the exact quotient, and no larger
/// in magnitude than the dividend.
pub proof fn lemma_div_round_nearest(n: int, d: int)
    requires
        d > 0,
    ensures
        -d <= 2 * (div_round(n, d) * d - n) <= d,
        n >= 0 ==> 0 <= div_round(n, d) <= n,
        n <= 0 ==> n <= div_round(n, d) <= 0,
{
    if n >= 0 {
        lemma_div_round_pos(n, d);
    } else {
        lemma_div_round_pos(-n, d);
        let q: int = div_round(-n, d);
        assert(div_round(n, d) == -q);
        assert((-q) * d == -(q * d)) by (nonlinear_arith);
    }
}

/// Rounds `n / d` to the nearest integer, a tie going away from zero.
pub fn div_round_i64(n: i64, d: i64) -> (q: i64)
    requires
        d > 0,
    ensures
        q == div_round(n as int, d as int),
{
    proof {
        lemma_div_round_nearest(n as int, d as int);
    }
    let wide_n: i128 = n as i128;
    let wide_d: i128 = d as i128;
    if n >= 0 {
        let q: i128 = (2 * wide_n + wide_d) / (2 * wide_d);
        q as i64
    } else {
        let q: i128 = (2 * (-wide_n) + wide_d) / (2 * wide_d);
        (-q) as i64
    }
}

/// Drops the fractional part of a quantity held in steps.
pub fn whole_part(x: i64) -> (w: i64)
    ensures
        w == div_trunc(x as int, 10_000),
{
    x / SCALE
}

/// A whole number of units as steps.
pub fn from_whole(units: i32) -> (x: i64)
    ensures
        x == steps_of(units as int),
{
    (units as i64) * SCALE
}

} // verus!
