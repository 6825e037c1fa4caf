use vstd::prelude::*;

use crate::math::{
    checked_mul_floor, checked_multiply_ratio, lemma_div_add_le, lemma_mul_floor_le,
    lemma_ratio_le, lemma_sum_nonneg, lemma_sum_prefix_le, lemma_sum_update, mul_floor, sum,
};
use crate::types::{percentage_sum, Campaign, DistributionType, ONE};

verus! {

/// The share of allocation `a` that slot `d` grants once it has fully vested.
pub open spec fn slot_target(d: DistributionType, a: u128) -> int {
    mul_floor(a as int, d.spec_percentage() as int)
}

/// The cumulative amount of slot `d` vested by time `t` for allocation `a`.
pub open spec fn vested(d: DistributionType, a: u128, t: u64) -> int {
    match d {
        DistributionType::LumpSum { start_time, .. } => if t < start_time {
            0
        } else {
            slot_target(d, a)
        },
        DistributionType::LinearVesting { start_time, end_time, cliff_duration, .. } => {
            let cliff: int = match cliff_duration {
                Some(c) => c as int,
                None => 0,
            };
            if (t as int) < start_time + cliff {
                0
            } else if t >= end_time {
                slot_target(d, a)
            } else {
                slot_target(d, a) * (t - start_time) / (end_time - start_time)
            }
        },
    }
}

/// What the evaluator needs of a schedule: non-empty, each percentage at most
/// one, each linear slot with a positive duration, percentages summing to one.
pub open spec fn schedule_sound(s: Seq<DistributionType>) -> bool {
    &&& s.len() > 0
    &&& forall|k: int| 0 <= k < s.len() ==> #[trigger] slot_sound(s[k])
    &&& percentage_sum(s) == ONE
}

pub open spec fn slot_sound(d: DistributionType) -> bool {
    &&& d.spec_percentage() <= ONE
    &&& match d {
        DistributionType::LumpSum { .. } => true,
        DistributionType::LinearVesting { start_time, end_time, cliff_duration, .. } => {
            &&& start_time < end_time
            &&& match cliff_duration {
                Some(c) => c < end_time - start_time,
                None => true,
            }
        },
    }
}

pub open spec fn target_seq(s: Seq<DistributionType>, a: u128) -> Seq<int> {
    Seq::new(s.len(), |k: int| slot_target(s[k], a))
}

/// Sum of the per-slot targets; at most `a`, short of it by the rounding loss.
pub open spec fn target_total(s: Seq<DistributionType>, a: u128) -> int {
    sum(target_seq(s, a))
}

/// The rounding loss, handed to the last slot once every slot has vested.
pub open spec fn compensation(s: Seq<DistributionType>, a: u128) -> int {
    a - target_total(s, a)
}

pub open spec fn all_done(s: Seq<DistributionType>, t: u64) -> bool {
    forall|k: int| 0 <= k < s.len() ==> (#[trigger] s[k]).spec_done(t)
}

/// What slot `k` entitles its holder to, cumulatively, at time `t`.
pub open spec fn entitled(s: Seq<DistributionType>, a: u128, t: u64, k: int) -> int {
    vested(s[k], a, t) + if all_done(s, t) && k == s.len() - 1 {
        compensation(s, a)
    } else {
        0
    }
}

/// The most slot `k` ever entitles its holder to.
pub open spec fn cap(s: Seq<DistributionType>, a: u128, k: int) -> int {
    slot_target(s[k], a) + if k == s.len() - 1 {
        compensation(s, a)
    } else {
        0
    }
}

pub open spec fn cap_seq(s: Seq<DistributionType>, a: u128) -> Seq<int> {
    Seq::new(s.len(), |k: int| cap(s, a, k))
}

pub proof fn lemma_campaign_sound(c: Campaign)
    requires
        c.schedule_ok(),
    ensures
        schedule_sound(c.distribution_type@),
{
    assert forall|k: int| 0 <= k < c.distribution_type@.len() implies #[trigger] slot_sound(
        c.distribution_type@[k],
    ) by {
        assert(c.distribution_type@[k].spec_valid(c.start_time, c.end_time));
    }
}

proof fn lemma_target_prefix(s: Seq<DistributionType>, a: u128, n: int)
    requires
        0 <= n <= s.len(),
        forall|k: int| 0 <= k < s.len() ==> #[trigger] slot_sound(s[k]),
    ensures
        percentage_sum(s.take(n)) >= 0,
        sum(target_seq(s, a).take(n)) <= mul_floor(a as int, percentage_sum(s.take(n))),
    decreases n,
{
    if n == 0 {
        assert(s.take(0) =~= Seq::<DistributionType>::empty());
        assert(target_seq(s, a).take(0) =~= Seq::<int>::empty());
        assert(mul_floor(a as int, 0) == 0) by (nonlinear_arith);
    } else {
        lemma_target_prefix(s, a, n - 1);
        assert(s.take(n).drop_last() =~= s.take(n - 1));
        assert(target_seq(s, a).take(n).drop_last() =~= target_seq(s, a).take(n - 1));
        assert(slot_sound(s[n - 1]));
        let head_pct = percentage_sum(s.take(n - 1));
        let last_pct = s[n - 1].spec_percentage() as int;
        assert((a as int) * head_pct >= 0 && (a as int) * last_pct >= 0) by (nonlinear_arith)
            requires
                head_pct >= 0,
                last_pct >= 0,
        ;
        assert((a as int) * head_pct + (a as int) * last_pct == (a as int) * (head_pct + last_pct)) by (nonlinear_arith);
        lemma_div_add_le((a as int) * head_pct, (a as int) * last_pct, ONE as int);
    }
}

/// The slot targets never add up to more than the allocation.
pub proof fn lemma_target_total_le(s: Seq<DistributionType>, a: u128)
    requires
        schedule_sound(s),
    ensures
        0 <= target_total(s, a) <= a,
        forall|k: int| 0 <= k < s.len() ==> 0 <= #[trigger] slot_target(s[k], a) <= a,
{
    lemma_target_prefix(s, a, s.len() as int);
    assert(s.take(s.len() as int) =~= s);
    assert(target_seq(s, a).take(s.len() as int) =~= target_seq(s, a));
    assert(mul_floor(a as int, ONE as int) == a) by {
        assert((a as int) * (ONE as int) == (ONE as int) * (a as int)) by (nonlinear_arith);
        vstd::arithmetic::div_mod::lemma_div_multiples_vanish(a as int, ONE as int);
    }
    assert forall|k: int| 0 <= k < s.len() implies 0 <= #[trigger] slot_target(s[k], a) <= a by {
        assert(slot_sound(s[k]));
        lemma_mul_floor_le(a as int, s[k].spec_percentage() as int);
    }
    lemma_sum_nonneg(target_seq(s, a));
}

/// The caps add up to the allocation exactly, and each is non-negative.
pub proof fn lemma_cap_total(s: Seq<DistributionType>, a: u128)
    requires
        schedule_sound(s),
    ensures
        sum(cap_seq(s, a)) == a,
        forall|k: int| 0 <= k < s.len() ==> 0 <= #[trigger] cap(s, a, k) <= a,
{
    lemma_target_total_le(s, a);
    let last = s.len() - 1;
    let ts = target_seq(s, a);
    assert(cap_seq(s, a) =~= ts.update(last, ts[last] + compensation(s, a)));
    lemma_sum_update(ts, last, ts[last] + compensation(s, a));
    lemma_sum_prefix_le(ts, last);
    assert(ts.take(last + 1) =~= ts);
    assert(ts.take(last + 1).drop_last() =~= ts.take(last));
    assert(ts[last] <= target_total(s, a));
    assert forall|k: int| 0 <= k < s.len() implies 0 <= #[trigger] cap(s, a, k) <= a by {
        assert(0 <= slot_target(s[k], a) <= a);
        assert(ts[k] == slot_target(s[k], a));
    }
}

/// A slot's vested amount lies between zero and its target, and equals the
/// target once the slot is done.
pub proof fn lemma_vested_bounds(d: DistributionType, a: u128, t: u64)
    requires
        slot_sound(d),
    ensures
        0 <= vested(d, a, t) <= slot_target(d, a),
        d.spec_done(t) ==> vested(d, a, t) == slot_target(d, a),
{
    lemma_mul_floor_le(a as int, d.spec_percentage() as int);
    match d {
        DistributionType::LumpSum { .. } => {},
        DistributionType::LinearVesting { start_time, end_time, cliff_duration, .. } => {
            if (t as int) >= start_time && t < end_time {
                lemma_ratio_le(slot_target(d, a), t - start_time, end_time - start_time);
            }
        },
    }
}

/// A slot's entitlement lies between zero and its cap, and reaches the cap once
/// every slot is done.
pub proof fn lemma_entitled_bounds(s: Seq<DistributionType>, a: u128, t: u64, k: int)
    requires
        schedule_sound(s),
        0 <= k < s.len(),
    ensures
        0 <= entitled(s, a, t, k) <= cap(s, a, k),
        all_done(s, t) ==> entitled(s, a, t, k) == cap(s, a, k),
{
    lemma_target_total_le(s, a);
    assert(slot_sound(s[k]));
    lemma_vested_bounds(s[k], a, t);
    if all_done(s, t) {
        assert(s[k].spec_done(t));
    }
}

/// The share of allocation `a` that slot `d` grants in full.
pub fn target_amount(d: &DistributionType, a: u128) -> (r: u128)
    requires
        slot_sound(*d),
    ensures
        r == slot_target(*d, a),
        r <= a,
{
    proof {
        lemma_mul_floor_le(a as int, d.spec_percentage() as int);
    }
    match checked_mul_floor(a, d.percentage()) {
        Some(v) => v,
        None => 0,
    }
}

/// The amount of slot `d` vested by `t` for allocation `a`.
pub fn vested_amount(d: &DistributionType, a: u128, t: u64) -> (r: u128)
    requires
        slot_sound(*d),
    ensures
        r == vested(*d, a, t),
{
    let target = target_amount(d, a);
    match *d {
        DistributionType::LumpSum { start_time, .. } => {
            if t < start_time {
                0
            } else {
                target
            }
        },
        DistributionType::LinearVesting { start_time, end_time, cliff_duration, .. } => {
            if t < start_time {
                return 0;
            }
            let elapsed: u64 = t - start_time;
            match cliff_duration {
                Some(c) => {
                    if elapsed < c {
                        return 0;
                    }
                },
                None => {},
            }
            if t >= end_time {
                target
            } else {
                proof {
                    lemma_ratio_le(target as int, elapsed as int, (end_time - start_time) as int);
                }
                match checked_multiply_ratio(target, elapsed as u128, (end_time - start_time) as u128) {
                    Some(v) => v,
                    None => 0,
                }
            }
        },
    }
}

} // verus!
