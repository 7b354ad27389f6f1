//! Rounding a quotient of integers to the nearest integer, ties away from
//! zero.

use vstd::arithmetic::div_mod::lemma_fundamental_div_mod;
use vstd::prelude::*;

verus! {

/// `n / d` rounded to the nearest integer, a tie going away from zero.
pub open spec fn round_div(n: int, d: int) -> int
    recommends
        d > 0,
{
    if n >= 0 {
        (2 * n + d) / (2 * d)
    } else {
        -((d - 2 * n) / (2 * d))
    }
}

/// `q` is `n / d` rounded to the nearest integer, a tie going away from
/// zero: `q` is at most half a unit from the quotient, and a tie is taken
/// on the far side of zero.
pub open spec fn is_rounded(n: int, d: int, q: int) -> bool {
    if n >= 0 {
        2 * q * d - d <= 2 * n < 2 * q * d + d
    } else {
        2 * q * d - d < 2 * n <= 2 * q * d + d
    }
}

/// `round_div` rounds to the nearest integer, ties away from zero.
pub proof fn lemma_round_div_is_rounded(n: int, d: int)
    requires
        d > 0,
    ensures
        is_rounded(n, d, round_div(n, d)),
{
    if n >= 0 {
        let a = 2 * n + d;
        let q = a / (2 * d);
        lemma_fundamental_div_mod(a, 2 * d);
        assert(0 <= a % (2 * d) < 2 * d);
        assert((2 * d) * q == 2 * q * d) by (nonlinear_arith);
    } else {
        let a = d - 2 * n;
        let p = a / (2 * d);
        lemma_fundamental_div_mod(a, 2 * d);
        assert(0 <= a % (2 * d) < 2 * d);
        assert((2 * d) * p == 2 * p * d) by (nonlinear_arith);
        assert(2 * (-p) * d == -(2 * p * d)) by (nonlinear_arith);
    }
}

/// Only one integer is the rounded quotient.
pub proof fn lemma_rounded_is_unique(n: int, d: int, q1: int, q2: int)
    requires
        d > 0,
        is_rounded(n, d, q1),
        is_rounded(n, d, q2),
    ensures
        q1 == q2,
{
    assert(q1 == q2) by (nonlinear_arith)
        requires
            d > 0,
            2 * q1 * d - d <= 2 * n <= 2 * q1 * d + d,
            2 * q2 * d - d <= 2 * n <= 2 * q2 * d + d,
            2 * n == 2 * q1 * d + d ==> 2 * n != 2 * q2 * d - d,
            2 * n == 2 * q2 * d + d ==> 2 * n != 2 * q1 * d - d,
    ;
}

/// Whatever is rounded is what `round_div` computes.
pub proof fn lemma_rounded_is_round_div(n: int, d: int, q: int)
    requires
        d > 0,
        is_rounded(n, d, q),
    ensures
        q == round_div(n, d),
{
    lemma_round_div_is_rounded(n, d);
    lemma_rounded_is_unique(n, d, q, round_div(n, d));
}

/// A multiple of the divisor rounds to its exact quotient.
pub proof fn lemma_round_div_exact(k: int, d: int)
    requires
        d > 0,
    ensures
        round_div(k * d, d) == k,
{
    assert(2 * k * d == 2 * (k * d)) by (nonlinear_arith);
    assert(is_rounded(k * d, d, k));
    lemma_rounded_is_round_div(k * d, d, k);
}

/// Rounding keeps the order of numerators.
pub proof fn lemma_round_div_monotone(n1: int, n2: int, d: int)
    requires
        d > 0,
        n1 <= n2,
    ensures
        round_div(n1, d) <= round_div(n2, d),
{
    let q1 = round_div(n1, d);
    let q2 = round_div(n2, d);
    lemma_round_div_is_rounded(n1, d);
    lemma_round_div_is_rounded(n2, d);
    if n1 == n2 {
    } else {
        assert(q1 <= q2) by (nonlinear_arith)
            requires
                d > 0,
                n1 < n2,
                2 * q1 * d - d <= 2 * n1,
                2 * n2 <= 2 * q2 * d + d,
                n1 >= 0 ==> 2 * n2 < 2 * q2 * d + d,
                n1 < 0 ==> 2 * q1 * d - d < 2 * n1,
                n1 >= 0 ==> n2 >= 0,
        ;
    }
}

/// Numerators less than one divisor apart round to neighbours or to the
/// same integer.
pub proof fn lemma_round_div_step(n1: int, n2: int, d: int)
    requires
        d > 0,
        n1 <= n2 < n1 + d,
    ensures
        round_div(n1, d) <= round_div(n2, d) <= round_div(n1, d) + 1,
{
    let q1 = round_div(n1, d);
    let q2 = round_div(n2, d);
    lemma_round_div_monotone(n1, n2, d);
    lemma_round_div_is_rounded(n1, d);
    lemma_round_div_is_rounded(n2, d);
    assert(q2 <= q1 + 1) by (nonlinear_arith)
        requires
            d > 0,
            n2 < n1 + d,
            2 * q2 * d - d <= 2 * n2,
            2 * n1 <= 2 * q1 * d + d,
    ;
}

/// Computes `round_div(n, d)`.
pub fn rounded_quotient(n: i128, d: i128) -> (q: i128)
    requires
        0 < d <= 0x1_0000_0000,
        -0x1_0000_0000_0000_0000_0000 <= n <= 0x1_0000_0000_0000_0000_0000,
    ensures
        q == round_div(n as int, d as int),
{
    if n >= 0 {
        (2 * n + d) / (2 * d)
    } else {
        let p: i128 = (d - 2 * n) / (2 * d);
        -p
    }
}

} // verus!
