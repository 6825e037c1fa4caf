use cosmwasm_std::{Decimal, Uint128};
use vstd::prelude::*;

use crate::types::ONE;

verus! {

/// Sum of a sequence of integers, folded from the back.
pub open spec fn sum(s: Seq<int>) -> int
    decreases s.len(),
{
    if s.len() == 0 {
        0
    } else {
        sum(s.drop_last()) + s.last()
    }
}

/// `a` scaled by the fixed-point fraction `p / ONE`, rounded down.
pub open spec fn mul_floor(a: int, p: int) -> int {
    a * p / (ONE as int)
}

/// Relies on `cosmwasm_std::Uint128::checked_mul_floor` with a `Decimal` of raw
/// value `p`: the exact product with `p / 10^18`, rounded down, or an error when
/// it does not fit in 128 bits.
#[verifier::external_body]
pub(crate) fn checked_mul_floor(a: u128, p: u128) -> (r: Option<u128>)
    ensures
        mul_floor(a as int, p as int) <= u128::MAX ==> r == Some(mul_floor(a as int, p as int) as u128),
        mul_floor(a as int, p as int) > u128::MAX ==> r is None,
{
    Uint128::new(a).checked_mul_floor(Decimal::raw(p)).ok().map(|v| v.u128())
}

/// Relies on `cosmwasm_std::Uint128::checked_multiply_ratio`: `a * num / den`
/// computed in 256 bits and rounded down, or an error when `den` is zero or the
/// quotient does not fit in 128 bits.
#[verifier::external_body]
pub(crate) fn checked_multiply_ratio(a: u128, num: u128, den: u128) -> (r: Option<u128>)
    ensures
        den == 0 ==> r is None,
        den != 0 && (a as int) * (num as int) / (den as int) <= u128::MAX ==> r == Some(((a as int) * (num as int) / (den as int)) as u128),
        den != 0 && (a as int) * (num as int) / (den as int) > u128::MAX ==> r is None,
{
    Uint128::new(a).checked_multiply_ratio(num, den).ok().map(|v| v.u128())
}

/// `x / d + y / d <= (x + y) / d` for non-negative `x`, `y`.
pub proof fn lemma_div_add_le(x: int, y: int, d: int)
    requires
        x >= 0,
        y >= 0,
        d > 0,
    ensures
        x / d + y / d <= (x + y) / d,
{
    let q = x / d + y / d;
    vstd::arithmetic::div_mod::lemma_fundamental_div_mod(x, d);
    vstd::arithmetic::div_mod::lemma_fundamental_div_mod(y, d);
    assert(d * q <= x + y) by (nonlinear_arith)
        requires
            x == d * (x / d) + x % d,
            y == d * (y / d) + y % d,
            x % d >= 0,
            y % d >= 0,
            q == x / d + y / d,
    ;
    vstd::arithmetic::div_mod::lemma_div_is_ordered(d * q, x + y, d);
    vstd::arithmetic::div_mod::lemma_div_multiples_vanish(q, d);
}

/// Scaling by a fraction of at most one never grows a non-negative amount.
pub proof fn lemma_mul_floor_le(a: int, p: int)
    requires
        a >= 0,
        0 <= p <= ONE,
    ensures
        0 <= mul_floor(a, p) <= a,
{
    assert(a * p <= a * (ONE as int)) by (nonlinear_arith)
        requires
            a >= 0,
            p <= ONE,
    ;
    assert(0 <= a * p) by (nonlinear_arith)
        requires
            a >= 0,
            p >= 0,
    ;
    vstd::arithmetic::div_mod::lemma_div_is_ordered(a * p, a * (ONE as int), ONE as int);
    vstd::arithmetic::div_mod::lemma_div_multiples_vanish(a, ONE as int);
    vstd::arithmetic::div_mod::lemma_div_pos_is_pos(a * p, ONE as int);
}

/// `x * n / d <= x` when `0 <= n <= d`.
pub proof fn lemma_ratio_le(x: int, n: int, d: int)
    requires
        x >= 0,
        0 <= n <= d,
        d > 0,
    ensures
        0 <= x * n / d <= x,
{
    assert(x * n <= x * d) by (nonlinear_arith)
        requires
            x >= 0,
            n <= d,
    ;
    assert(0 <= x * n) by (nonlinear_arith)
        requires
            x >= 0,
            n >= 0,
    ;
    vstd::arithmetic::div_mod::lemma_div_is_ordered(x * n, x * d, d);
    vstd::arithmetic::div_mod::lemma_div_multiples_vanish(x, d);
    vstd::arithmetic::div_mod::lemma_div_pos_is_pos(x * n, d);
}

/// Pointwise `<=` carries over to sums.
pub proof fn lemma_sum_le(s: Seq<int>, t: Seq<int>)
    requires
        s.len() == t.len(),
        forall|i: int| 0 <= i < s.len() ==> s[i] <= t[i],
    ensures
        sum(s) <= sum(t),
    decreases s.len(),
{
    if s.len() > 0 {
        lemma_sum_le(s.drop_last(), t.drop_last());
    }
}

/// A prefix of a non-negative sequence sums to no more than the whole.
pub proof fn lemma_sum_prefix_le(s: Seq<int>, n: int)
    requires
        0 <= n <= s.len(),
        forall|i: int| 0 <= i < s.len() ==> s[i] >= 0,
    ensures
        0 <= sum(s.take(n)) <= sum(s),
    decreases s.len() - n,
{
    if n < s.len() {
        assert(s.take(n + 1).drop_last() =~= s.take(n));
        lemma_sum_prefix_le(s, n + 1);
        lemma_sum_nonneg(s.take(n));
    } else {
        assert(s.take(n) =~= s);
        lemma_sum_nonneg(s);
    }
}

pub proof fn lemma_sum_nonneg(s: Seq<int>)
    requires
        forall|i: int| 0 <= i < s.len() ==> s[i] >= 0,
    ensures
        sum(s) >= 0,
    decreases s.len(),
{
    if s.len() > 0 {
        lemma_sum_nonneg(s.drop_last());
    }
}

/// Replacing one element changes the sum by the difference.
pub proof fn lemma_sum_update(s: Seq<int>, i: int, v: int)
    requires
        0 <= i < s.len(),
    ensures
        sum(s.update(i, v)) == sum(s) - s[i] + v,
    decreases s.len(),
{
    if i < s.len() - 1 {
        assert(s.update(i, v).drop_last() =~= s.drop_last().update(i, v));
        lemma_sum_update(s.drop_last(), i, v);
    } else {
        assert(s.update(i, v).drop_last() =~= s.drop_last());
    }
}

} // verus!
