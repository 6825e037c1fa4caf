use vstd::prelude::*;

use crate::math::{lemma_sum_le, lemma_sum_nonneg, lemma_sum_prefix_le, sum};
use crate::schedule::{
    all_done, cap_seq, compensation, entitled, lemma_cap_total, lemma_entitled_bounds,
    lemma_target_total_le, schedule_sound, slot_sound, slot_target, target_amount, target_seq,
    target_total, vested_amount,
};
use crate::types::{DistributionType, SlotClaim};

verus! {

/// Integers of a sequence of amounts.
pub open spec fn ints(s: Seq<u128>) -> Seq<int> {
    Seq::new(s.len(), |i: int| s[i] as int)
}

/// What slot `k` of a claim record already holds (zero where nothing was recorded).
pub open spec fn prior(rec: Seq<SlotClaim>, k: int) -> int {
    if 0 <= k < rec.len() {
        rec[k].amount as int
    } else {
        0
    }
}

pub open spec fn prior_timestamp(rec: Seq<SlotClaim>, k: int) -> u64 {
    if 0 <= k < rec.len() {
        rec[k].last_timestamp
    } else {
        0
    }
}

/// Sum of what a claim record holds.
pub open spec fn record_total(rec: Seq<SlotClaim>) -> int
    decreases rec.len(),
{
    if rec.len() == 0 {
        0
    } else {
        record_total(rec.drop_last()) + rec.last().amount
    }
}

/// Newly claimable amount of slot `k`: entitlement minus what was taken, floored at zero.
pub open spec fn new_amount(
    s: Seq<DistributionType>,
    a: u128,
    t: u64,
    rec: Seq<SlotClaim>,
    k: int,
) -> int {
    let e = entitled(s, a, t, k);
    let p = prior(rec, k);
    if e > p {
        e - p
    } else {
        0
    }
}

pub open spec fn new_seq(s: Seq<DistributionType>, a: u128, t: u64, rec: Seq<SlotClaim>) -> Seq<
    int,
> {
    Seq::new(s.len(), |k: int| new_amount(s, a, t, rec, k))
}

/// The maximum claimable amount at `t`.
pub open spec fn max_claimable(
    s: Seq<DistributionType>,
    a: u128,
    t: u64,
    rec: Seq<SlotClaim>,
) -> int {
    sum(new_seq(s, a, t, rec))
}

pub open spec fn min(x: int, y: int) -> int {
    if x <= y {
        x
    } else {
        y
    }
}

/// Draining `r` from `x` front to back: what index `j` gives.
pub open spec fn drain_take(x: Seq<int>, r: int, j: int) -> int {
    min(x[j], r - min(r, sum(x.take(j))))
}

pub open spec fn drain_seq(x: Seq<int>, r: int) -> Seq<int> {
    Seq::new(x.len(), |j: int| drain_take(x, r, j))
}

/// The part of `news` that lies in lump-sum slots (`lump`) or in linear slots.
pub open spec fn kind_part(s: Seq<DistributionType>, news: Seq<int>, lump: bool) -> Seq<int> {
    Seq::new(news.len(), |k: int| if s[k].is_lump_sum() == lump { news[k] } else { 0 })
}

/// What slot `k` gives towards a claim of `r`: lump-sum slots in index order
/// first, then linear slots in index order.
pub open spec fn take_amount(s: Seq<DistributionType>, news: Seq<int>, r: int, k: int) -> int {
    let lumps = kind_part(s, news, true);
    drain_take(lumps, r, k) + drain_take(
        kind_part(s, news, false),
        r - min(r, sum(lumps)),
        k,
    )
}

pub open spec fn take_seq(s: Seq<DistributionType>, news: Seq<int>, r: int) -> Seq<int> {
    Seq::new(news.len(), |k: int| take_amount(s, news, r, k))
}

/// Draining telescopes: the first `n` takes add up to `min(r, sum of the first n)`.
pub proof fn lemma_drain_prefix(x: Seq<int>, r: int, n: int)
    requires
        r >= 0,
        0 <= n <= x.len(),
        forall|i: int| 0 <= i < x.len() ==> x[i] >= 0,
    ensures
        sum(drain_seq(x, r).take(n)) == min(r, sum(x.take(n))),
    decreases n,
{
    if n == 0 {
        assert(drain_seq(x, r).take(0) =~= Seq::<int>::empty());
        assert(x.take(0) =~= Seq::<int>::empty());
    } else {
        lemma_drain_prefix(x, r, n - 1);
        assert(drain_seq(x, r).take(n).drop_last() =~= drain_seq(x, r).take(n - 1));
        assert(x.take(n).drop_last() =~= x.take(n - 1));
        lemma_sum_nonneg(x.take(n - 1));
    }
}

/// Draining takes `min(r, sum(x))` in all, and each take is at most its element.
pub proof fn lemma_drain_total(x: Seq<int>, r: int)
    requires
        r >= 0,
        forall|i: int| 0 <= i < x.len() ==> x[i] >= 0,
    ensures
        sum(drain_seq(x, r)) == min(r, sum(x)),
        forall|j: int| 0 <= j < x.len() ==> 0 <= #[trigger] drain_take(x, r, j) <= x[j],
        r >= sum(x) ==> forall|j: int| 0 <= j < x.len() ==> #[trigger] drain_take(x, r, j) == x[j],
{
    lemma_drain_prefix(x, r, x.len() as int);
    assert(drain_seq(x, r).take(x.len() as int) =~= drain_seq(x, r));
    assert(x.take(x.len() as int) =~= x);
    assert forall|j: int| 0 <= j < x.len() implies 0 <= #[trigger] drain_take(x, r, j) <= x[j] by {
        lemma_sum_nonneg(x.take(j));
    }
    if r >= sum(x) {
        assert forall|j: int| 0 <= j < x.len() implies #[trigger] drain_take(x, r, j) == x[j] by {
            lemma_sum_prefix_le(x, j + 1);
            assert(x.take(j + 1).drop_last() =~= x.take(j));
            lemma_sum_nonneg(x.take(j));
        }
    }
}

/// Sums of a pointwise sum.
pub proof fn lemma_sum_add(x: Seq<int>, y: Seq<int>, z: Seq<int>)
    requires
        x.len() == y.len() == z.len(),
        forall|i: int| 0 <= i < x.len() ==> z[i] == x[i] + y[i],
    ensures
        sum(z) == sum(x) + sum(y),
    decreases x.len(),
{
    if x.len() > 0 {
        lemma_sum_add(x.drop_last(), y.drop_last(), z.drop_last());
    }
}

/// The lump-sum part and the linear part of a claimable vector make up the whole.
pub proof fn lemma_kind_parts(s: Seq<DistributionType>, news: Seq<int>)
    requires
        s.len() == news.len(),
        forall|i: int| 0 <= i < news.len() ==> news[i] >= 0,
    ensures
        sum(kind_part(s, news, true)) + sum(kind_part(s, news, false)) == sum(news),
        forall|i: int| 0 <= i < news.len() ==> #[trigger] kind_part(s, news, true)[i] >= 0,
        forall|i: int| 0 <= i < news.len() ==> #[trigger] kind_part(s, news, false)[i] >= 0,
{
    lemma_sum_add(kind_part(s, news, true), kind_part(s, news, false), news);
}

/// Partitioning a claim of `r <= sum(news)`: the takes add up to `r`, each lies
/// within its slot's claimable amount, and a claim of everything takes everything.
pub proof fn lemma_take_total(s: Seq<DistributionType>, news: Seq<int>, r: int)
    requires
        s.len() == news.len(),
        forall|i: int| 0 <= i < news.len() ==> news[i] >= 0,
        0 <= r <= sum(news),
    ensures
        sum(take_seq(s, news, r)) == r,
        forall|k: int| 0 <= k < news.len() ==> 0 <= #[trigger] take_amount(s, news, r, k) <= news[k],
        r == sum(news) ==> forall|k: int|
            0 <= k < news.len() ==> #[trigger] take_amount(s, news, r, k) == news[k],
{
    let lumps = kind_part(s, news, true);
    let lins = kind_part(s, news, false);
    let r2 = r - min(r, sum(lumps));
    lemma_kind_parts(s, news);
    lemma_drain_total(lumps, r);
    lemma_drain_total(lins, r2);
    lemma_sum_nonneg(lumps);
    lemma_sum_nonneg(lins);
    assert(sum(drain_seq(lumps, r)) == min(r, sum(lumps)));
    assert(sum(drain_seq(lins, r2)) == min(r2, sum(lins)));
    assert forall|k: int| 0 <= k < news.len() implies #[trigger] take_seq(s, news, r)[k] == drain_seq(
        lumps,
        r,
    )[k] + drain_seq(lins, r2)[k] by {}
    lemma_sum_add(drain_seq(lumps, r), drain_seq(lins, r2), take_seq(s, news, r));
    assert forall|k: int| 0 <= k < news.len() implies 0 <= #[trigger] take_amount(s, news, r, k)
        <= news[k] by {
        assert(0 <= drain_take(lumps, r, k) <= lumps[k]);
        assert(0 <= drain_take(lins, r2, k) <= lins[k]);
        assert(lumps[k] + lins[k] == news[k]);
    }
    if r == sum(news) {
        assert forall|k: int| 0 <= k < news.len() implies #[trigger] take_amount(s, news, r, k)
            == news[k] by {
            assert(drain_take(lumps, r, k) == lumps[k]);
            assert(drain_take(lins, r2, k) == lins[k]);
        }
    }
}

/// In any claim, what lump-sum slots give is `min(r, claimable in lump-sum slots)`.
pub proof fn lemma_lump_priority(s: Seq<DistributionType>, news: Seq<int>, r: int)
    requires
        s.len() == news.len(),
        forall|i: int| 0 <= i < news.len() ==> news[i] >= 0,
        0 <= r <= sum(news),
    ensures
        sum(Seq::new(news.len(), |k: int| if s[k].is_lump_sum() { take_amount(s, news, r, k) } else { 0 }))
            == min(r, sum(kind_part(s, news, true))),
{
    let lumps = kind_part(s, news, true);
    let lins = kind_part(s, news, false);
    let r2 = r - min(r, sum(lumps));
    lemma_kind_parts(s, news);
    lemma_drain_total(lumps, r);
    lemma_drain_total(lins, r2);
    let only = Seq::new(news.len(), |k: int| if s[k].is_lump_sum() { take_amount(s, news, r, k) } else { 0 });
    assert forall|k: int| 0 <= k < news.len() implies only[k] == drain_seq(lumps, r)[k] by {
        assert(drain_take(lumps, r, k) <= lumps[k]);
        assert(0 <= drain_take(lins, r2, k) <= lins[k]);
    }
    assert(only =~= drain_seq(lumps, r));
}

/// Every slot's entitlement at `t`.
pub fn entitlements(slots: &Vec<DistributionType>, a: u128, t: u64) -> (r: Vec<u128>)
    requires
        schedule_sound(slots@),
    ensures
        r@.len() == slots@.len(),
        forall|k: int| 0 <= k < slots@.len() ==> r@[k] == entitled(slots@, a, t, k),
{
    let n = slots.len();
    let ghost s = slots@;
    proof {
        lemma_target_total_le(s, a);
        lemma_sum_nonneg(target_seq(s, a));
    }
    let mut total: u128 = 0;
    let mut done = true;
    let mut k: usize = 0;
    while k < n
        invariant
            n == s.len(),
            s == slots@,
            schedule_sound(s),
            0 <= k <= n,
            total == sum(target_seq(s, a).take(k as int)),
            done == (forall|j: int| 0 <= j < k ==> (#[trigger] s[j]).spec_done(t)),
            0 <= target_total(s, a) <= a,
            forall|j: int| 0 <= j < s.len() ==> 0 <= #[trigger] slot_target(s[j], a) <= a,
        decreases n - k,
    {
        proof {
            assert(slot_sound(s[k as int]));
            lemma_sum_prefix_le(target_seq(s, a), k + 1);
            lemma_sum_nonneg(target_seq(s, a));
            assert(target_seq(s, a).take(k + 1).drop_last() =~= target_seq(s, a).take(k as int));
        }
        let v = target_amount(&slots[k], a);
        total = total + v;
        done = done && slots[k].done(t);
        k = k + 1;
    }
    proof {
        assert(target_seq(s, a).take(n as int) =~= target_seq(s, a));
    }
    let comp = a - total;
    let mut out: Vec<u128> = Vec::new();
    let mut k: usize = 0;
    while k < n
        invariant
            n == s.len(),
            s == slots@,
            schedule_sound(s),
            0 <= k <= n,
            comp == compensation(s, a),
            done == all_done(s, t),
            out@.len() == k,
            forall|j: int| 0 <= j < k ==> out@[j] == entitled(s, a, t, j),
        decreases n - k,
    {
        proof {
            assert(slot_sound(s[k as int]));
            lemma_entitled_bounds(s, a, t, k as int);
            lemma_cap_total(s, a);
            crate::schedule::lemma_vested_bounds(s[k as int], a, t);
        }
        let v = vested_amount(&slots[k], a, t);
        let e = if done && k == n - 1 {
            v + comp
        } else {
            v
        };
        out.push(e);
        k = k + 1;
    }
    out
}

/// Per-slot newly claimable amounts for allocation `a` at `t`, given the
/// address's claim record, and their total.
pub fn claimable(slots: &Vec<DistributionType>, a: u128, t: u64, rec: &Vec<SlotClaim>) -> (r: (
    Vec<u128>,
    u128,
))
    requires
        schedule_sound(slots@),
    ensures
        ints(r.0@) == new_seq(slots@, a, t, rec@),
        r.1 == max_claimable(slots@, a, t, rec@),
        r.1 <= a,
{
    let ghost s = slots@;
    let ents = entitlements(slots, a, t);
    let n = slots.len();
    let mut news: Vec<u128> = Vec::new();
    let mut total: u128 = 0;
    let mut k: usize = 0;
    proof {
        lemma_cap_total(s, a);
        assert forall|j: int| 0 <= j < s.len() implies 0 <= #[trigger] new_seq(s, a, t, rec@)[j]
            <= cap_seq(s, a)[j] by {
            lemma_entitled_bounds(s, a, t, j);
        }
        lemma_sum_le(new_seq(s, a, t, rec@), cap_seq(s, a));
    }
    while k < n
        invariant
            n == s.len(),
            s == slots@,
            schedule_sound(s),
            0 <= k <= n,
            ents@.len() == n,
            forall|j: int| 0 <= j < n ==> ents@[j] == entitled(s, a, t, j),
            news@.len() == k,
            forall|j: int| 0 <= j < k ==> news@[j] == new_amount(s, a, t, rec@, j),
            total == sum(new_seq(s, a, t, rec@).take(k as int)),
            sum(new_seq(s, a, t, rec@)) <= a,
            forall|j: int| 0 <= j < s.len() ==> 0 <= #[trigger] new_seq(s, a, t, rec@)[j],
        decreases n - k,
    {
        let e = ents[k];
        let p: u128 = if k < rec.len() {
            rec[k].amount
        } else {
            0
        };
        let v = if e > p {
            e - p
        } else {
            0
        };
        proof {
            lemma_sum_prefix_le(new_seq(s, a, t, rec@), k + 1);
            lemma_sum_nonneg(new_seq(s, a, t, rec@).take(k as int));
            assert(new_seq(s, a, t, rec@).take(k + 1).drop_last() =~= new_seq(s, a, t, rec@).take(
                k as int,
            ));
        }
        news.push(v);
        total = total + v;
        k = k + 1;
    }
    proof {
        assert(new_seq(s, a, t, rec@).take(n as int) =~= new_seq(s, a, t, rec@));
        assert(ints(news@) =~= new_seq(s, a, t, rec@));
    }
    (news, total)
}

/// Drains `r` from `part` front to back: the takes, and what is left of `r`.
fn drain(part: &Vec<u128>, r: u128) -> (out: (Vec<u128>, u128))
    ensures
        ints(out.0@) == drain_seq(ints(part@), r as int),
        out.1 == r - min(r as int, sum(ints(part@))),
{
    let ghost x = ints(part@);
    let n = part.len();
    let mut takes: Vec<u128> = Vec::new();
    let mut left = r;
    let mut j: usize = 0;
    while j < n
        invariant
            n == part@.len(),
            x == ints(part@),
            0 <= j <= n,
            takes@.len() == j,
            forall|i: int| 0 <= i < j ==> takes@[i] == drain_take(x, r as int, i),
            left == r - min(r as int, sum(x.take(j as int))),
        decreases n - j,
    {
        proof {
            assert(x.take(j + 1).drop_last() =~= x.take(j as int));
            assert forall|i: int| 0 <= i < x.len() implies x[i] >= 0 by {}
            lemma_sum_nonneg(x.take(j as int));
        }
        let v = part[j];
        let take = if left < v {
            left
        } else {
            v
        };
        takes.push(take);
        left = left - take;
        j = j + 1;
    }
    proof {
        assert(x.take(n as int) =~= x);
        assert(ints(takes@) =~= drain_seq(x, r as int));
    }
    (takes, left)
}

/// Splits a claim of `r` across slots, lump-sum slots first, each group in
/// index order, each slot giving at most its claimable amount.
/// Also returns what could not be placed, which is always zero.
pub fn partition(slots: &Vec<DistributionType>, news: &Vec<u128>, r: u128) -> (out: (Vec<u128>, u128))
    requires
        news@.len() == slots@.len(),
        r <= sum(ints(news@)),
    ensures
        ints(out.0@) == take_seq(slots@, ints(news@), r as int),
        out.1 == 0,
{
    let ghost s = slots@;
    let ghost ns = ints(news@);
    let n = news.len();
    let mut lumps: Vec<u128> = Vec::new();
    let mut lins: Vec<u128> = Vec::new();
    let mut k: usize = 0;
    while k < n
        invariant
            n == news@.len(),
            n == s.len(),
            s == slots@,
            ns == ints(news@),
            0 <= k <= n,
            lumps@.len() == k,
            lins@.len() == k,
            forall|j: int| 0 <= j < k ==> lumps@[j] == kind_part(s, ns, true)[j],
            forall|j: int| 0 <= j < k ==> lins@[j] == kind_part(s, ns, false)[j],
        decreases n - k,
    {
        if slots[k].lump_sum() {
            lumps.push(news[k]);
            lins.push(0);
        } else {
            lumps.push(0);
            lins.push(news[k]);
        }
        k = k + 1;
    }
    proof {
        assert(ints(lumps@) =~= kind_part(s, ns, true));
        assert(ints(lins@) =~= kind_part(s, ns, false));
    }
    let (first, left) = drain(&lumps, r);
    let (second, rest) = drain(&lins, left);
    let mut out: Vec<u128> = Vec::new();
    let mut k: usize = 0;
    proof {
        lemma_take_total(s, ns, r as int);
        lemma_drain_total(kind_part(s, ns, true), r as int);
        lemma_drain_total(kind_part(s, ns, false), left as int);
        lemma_kind_parts(s, ns);
    }
    while k < n
        invariant
            n == news@.len(),
            n == s.len(),
            s == slots@,
            ns == ints(news@),
            0 <= k <= n,
            first@.len() == n,
            second@.len() == n,
            left == r - min(r as int, sum(kind_part(s, ns, true))),
            ints(first@) == drain_seq(kind_part(s, ns, true), r as int),
            ints(second@) == drain_seq(kind_part(s, ns, false), left as int),
            forall|j: int| 0 <= j < n ==> 0 <= #[trigger] take_amount(s, ns, r as int, j) <= ns[j],
            out@.len() == k,
            forall|j: int| 0 <= j < k ==> out@[j] == take_amount(s, ns, r as int, j),
        decreases n - k,
    {
        proof {
            assert(ints(first@)[k as int] == first@[k as int]);
            assert(ints(second@)[k as int] == second@[k as int]);
            assert(take_amount(s, ns, r as int, k as int) <= ns[k as int]);
            assert(ns[k as int] == news@[k as int]);
        }
        out.push(first[k] + second[k]);
        k = k + 1;
    }
    proof {
        assert(ints(out@) =~= take_seq(s, ns, r as int));
        lemma_sum_nonneg(kind_part(s, ns, true));
        lemma_sum_nonneg(kind_part(s, ns, false));
    }
    (out, rest)
}

/// The claim record after a claim at `t` that took `takes`.
pub open spec fn merged(rec: Seq<SlotClaim>, takes: Seq<int>, t: u64) -> Seq<SlotClaim> {
    Seq::new(
        takes.len(),
        |k: int|
            SlotClaim {
                amount: (prior(rec, k) + takes[k]) as u128,
                last_timestamp: if takes[k] > 0 {
                    t
                } else {
                    prior_timestamp(rec, k)
                },
            },
    )
}

/// Adds a claim's takes to the record, stamping the slots that gave something.
pub fn merge_claims(rec: &Vec<SlotClaim>, takes: &Vec<u128>, t: u64) -> (out: Vec<SlotClaim>)
    requires
        forall|k: int| 0 <= k < takes@.len() ==> prior(rec@, k) + takes@[k] <= u128::MAX,
    ensures
        out@ == merged(rec@, ints(takes@), t),
{
    let n = takes.len();
    let mut out: Vec<SlotClaim> = Vec::new();
    let mut k: usize = 0;
    while k < n
        invariant
            n == takes@.len(),
            0 <= k <= n,
            forall|j: int| 0 <= j < takes@.len() ==> prior(rec@, j) + takes@[j] <= u128::MAX,
            out@.len() == k,
            forall|j: int| 0 <= j < k ==> out@[j] == merged(rec@, ints(takes@), t)[j],
        decreases n - k,
    {
        let (p, ts) = if k < rec.len() {
            (rec[k].amount, rec[k].last_timestamp)
        } else {
            (0, 0)
        };
        let take = takes[k];
        let stamp = if take > 0 {
            t
        } else {
            ts
        };
        out.push(SlotClaim { amount: p + take, last_timestamp: stamp });
        k = k + 1;
    }
    proof {
        assert(out@ =~= merged(rec@, ints(takes@), t));
    }
    out
}

/// Whether a claim record holds at most `a` in all.
pub fn record_within(rec: &Vec<SlotClaim>, a: u128) -> (r: bool)
    ensures
        r == (record_total(rec@) <= a),
{
    let n = rec.len();
    let mut total: u128 = 0;
    let mut k: usize = 0;
    while k < n
        invariant
            n == rec@.len(),
            0 <= k <= n,
            total == record_total(rec@.take(k as int)),
            total <= a,
        decreases n - k,
    {
        proof {
            assert(rec@.take(k + 1).drop_last() =~= rec@.take(k as int));
        }
        let v = rec[k].amount;
        if v > a - total {
            proof {
                lemma_record_total_prefix(rec@, k + 1);
            }
            return false;
        }
        total = total + v;
        k = k + 1;
    }
    proof {
        assert(rec@.take(n as int) =~= rec@);
    }
    true
}

/// A prefix of a claim record holds no more than the whole record.
pub proof fn lemma_record_total_prefix(rec: Seq<SlotClaim>, n: int)
    requires
        0 <= n <= rec.len(),
    ensures
        record_total(rec.take(n)) <= record_total(rec),
    decreases rec.len() - n,
{
    if n < rec.len() {
        assert(rec.take(n + 1).drop_last() =~= rec.take(n));
        lemma_record_total_prefix(rec, n + 1);
    } else {
        assert(rec.take(n) =~= rec);
    }
}

} // verus!
