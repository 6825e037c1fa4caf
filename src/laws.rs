use vstd::prelude::*;

use crate::calculator::{
    kind_part, lemma_lump_priority, lemma_sum_add, lemma_take_total, max_claimable, merged, min,
    new_seq, prior, record_total, take_amount, take_seq,
};
use crate::claim::{claim_result, record_of};
use crate::ledger::Claimdrop;
use crate::math::sum;
use crate::schedule::{
    all_done, cap, cap_seq, lemma_campaign_sound, lemma_cap_total, lemma_entitled_bounds,
};

verus! {

/// An address's record stays within what each slot can ever grant.
pub open spec fn within_caps(state: Claimdrop, a: Seq<char>) -> bool {
    let c = state.campaign.unwrap();
    let s = c.distribution_type@;
    let alloc = state.allocations.spec_get(a).unwrap();
    forall|k: int| 0 <= k < s.len() ==> #[trigger] prior(record_of(state, a), k) <= cap(s, alloc, k)
}

/// Full vest: a claim of everything, made once every slot has finished
/// vesting, leaves the receiver's record holding exactly the allocation
/// (the rounding loss is paid into the last slot).
pub proof fn lemma_full_vest(
    state: Claimdrop,
    now: u64,
    sender: String,
    receiver: String,
    balance: u128,
)
    requires
        state.wf(),
        state.campaign is Some,
        state.allocations.spec_get(receiver@) is Some,
        all_done(state.campaign.unwrap().distribution_type@, now),
        within_caps(state, receiver@),
        claim_result(state, now, sender, receiver, None, balance) is Ok,
    ensures
        record_total(claim_result(state, now, sender, receiver, None, balance).unwrap().0)
            == state.allocations.spec_get(receiver@).unwrap(),
{
    let c = state.campaign.unwrap();
    let s = c.distribution_type@;
    let a = state.allocations.spec_get(receiver@).unwrap();
    let rec = record_of(state, receiver@);
    let ns = new_seq(s, a, now, rec);
    let m = max_claimable(s, a, now, rec);
    lemma_campaign_sound(c);
    lemma_cap_total(s, a);
    assert forall|k: int| 0 <= k < ns.len() implies ns[k] >= 0 by {}
    assert(0 <= m) by {
        crate::math::lemma_sum_nonneg(ns);
    }
    lemma_take_total(s, ns, m);
    assert(take_seq(s, ns, m) =~= ns);
    let rec2 = merged(rec, ns, now);
    let ps = Seq::new(s.len(), |k: int| prior(rec, k));
    assert forall|k: int| 0 <= k < s.len() implies #[trigger] cap_seq(s, a)[k] == ps[k] + ns[k] by {
        lemma_entitled_bounds(s, a, now, k);
        assert(prior(rec, k) <= cap(s, a, k));
    }
    lemma_sum_add(ps, ns, cap_seq(s, a));
    assert forall|k: int| 0 <= k < ns.len() implies 0 <= prior(rec, k) + #[trigger] ns[k] <= u128::MAX by {
        lemma_entitled_bounds(s, a, now, k);
    }
    crate::claim::lemma_merged_total(rec, ns, now);
    crate::claim::lemma_prior_sum(rec, s.len() as int);
}

/// Monotonicity: a successful claim never lowers what any slot of the
/// receiver's record holds.
pub proof fn lemma_claim_monotone(
    state: Claimdrop,
    now: u64,
    sender: String,
    receiver: String,
    requested: Option<u128>,
    balance: u128,
)
    requires
        state.wf(),
        claim_result(state, now, sender, receiver, requested, balance) is Ok,
    ensures
        ({
            let rec = record_of(state, receiver@);
            let rec2 = claim_result(state, now, sender, receiver, requested, balance).unwrap().0;
            &&& rec2.len() == state.campaign.unwrap().distribution_type@.len()
            &&& rec.len() <= rec2.len()
            &&& forall|k: int| 0 <= k < rec2.len() ==> prior(rec, k) <= #[trigger] rec2[k].amount
        }),
{
    let c = state.campaign.unwrap();
    let s = c.distribution_type@;
    let a = state.allocations.spec_get(receiver@).unwrap();
    let rec = record_of(state, receiver@);
    let ns = new_seq(s, a, now, rec);
    let r = claim_result(state, now, sender, receiver, requested, balance).unwrap().1;
    lemma_campaign_sound(c);
    assert forall|k: int| 0 <= k < ns.len() implies ns[k] >= 0 by {}
    let m = max_claimable(s, a, now, rec);
    assert(crate::claim::claim_amount(requested, m) is Ok);
    assert(r == crate::claim::claim_amount(requested, m).unwrap());
    crate::math::lemma_sum_nonneg(ns);
    lemma_take_total(s, ns, r);
    let ts = take_seq(s, ns, r);
    assert forall|k: int| 0 <= k < s.len() implies prior(rec, k) <= #[trigger] merged(rec, ts, now)[k].amount by {
        assert(0 <= ts[k] <= ns[k]);
        lemma_entitled_bounds(s, a, now, k);
        lemma_cap_total(s, a);
    }
    if state.claims.spec_get(receiver@) is Some {
        assert(state.records_fit());
    }
}

/// Staying within caps: a successful claim keeps every slot of the receiver's
/// record at or below the slot's cap, so the record never exceeds the allocation.
pub proof fn lemma_claim_within_caps(
    state: Claimdrop,
    now: u64,
    sender: String,
    receiver: String,
    requested: Option<u128>,
    balance: u128,
)
    requires
        state.wf(),
        claim_result(state, now, sender, receiver, requested, balance) is Ok,
        within_caps(state, receiver@),
    ensures
        ({
            let s = state.campaign.unwrap().distribution_type@;
            let a = state.allocations.spec_get(receiver@).unwrap();
            let rec2 = claim_result(state, now, sender, receiver, requested, balance).unwrap().0;
            forall|k: int| 0 <= k < rec2.len() ==> #[trigger] rec2[k].amount <= cap(s, a, k)
        }),
{
    let c = state.campaign.unwrap();
    let s = c.distribution_type@;
    let a = state.allocations.spec_get(receiver@).unwrap();
    let rec = record_of(state, receiver@);
    let ns = new_seq(s, a, now, rec);
    let r = claim_result(state, now, sender, receiver, requested, balance).unwrap().1;
    lemma_campaign_sound(c);
    assert forall|k: int| 0 <= k < ns.len() implies ns[k] >= 0 by {}
    let m = max_claimable(s, a, now, rec);
    assert(crate::claim::claim_amount(requested, m) is Ok);
    assert(r == crate::claim::claim_amount(requested, m).unwrap());
    crate::math::lemma_sum_nonneg(ns);
    lemma_take_total(s, ns, r);
    let ts = take_seq(s, ns, r);
    assert forall|k: int| 0 <= k < s.len() implies #[trigger] merged(rec, ts, now)[k].amount <= cap(s, a, k) by {
        assert(0 <= ts[k] <= ns[k]);
        lemma_entitled_bounds(s, a, now, k);
        lemma_cap_total(s, a);
        assert(prior(rec, k) <= cap(s, a, k));
    }
}

/// Solvency: a successful claim pays out no more than the contract holds, and
/// a claim asking for more than the contract holds fails.
pub proof fn lemma_claim_solvent(
    state: Claimdrop,
    now: u64,
    sender: String,
    receiver: String,
    requested: Option<u128>,
    balance: u128,
)
    requires
        state.wf(),
    ensures
        claim_result(state, now, sender, receiver, requested, balance) matches Ok((_, paid)) ==> paid
            <= balance,
        requested matches Some(x) && x > balance ==> claim_result(
            state,
            now,
            sender,
            receiver,
            requested,
            balance,
        ) is Err,
{
}

/// Determinism: the outcome of a claim (the error, or the new record and the
/// amount paid) is a function of the state and the request alone.
pub proof fn lemma_claim_deterministic(
    s1: Claimdrop,
    s2: Claimdrop,
    now: u64,
    sender: String,
    receiver: String,
    requested: Option<u128>,
    balance: u128,
)
    requires
        s1 == s2,
    ensures
        claim_result(s1, now, sender, receiver, requested, balance) == claim_result(
            s2,
            now,
            sender,
            receiver,
            requested,
            balance,
        ),
{
}

/// Lump-sum priority: in a successful claim of `paid`, what the lump-sum slots
/// of the receiver's record gain together is `min(paid, claimable in lump-sum
/// slots)`; linear slots give only what the lump sums could not.
pub proof fn lemma_claim_lump_priority(
    state: Claimdrop,
    now: u64,
    sender: String,
    receiver: String,
    requested: Option<u128>,
    balance: u128,
)
    requires
        state.wf(),
        claim_result(state, now, sender, receiver, requested, balance) is Ok,
    ensures
        ({
            let c = state.campaign.unwrap();
            let s = c.distribution_type@;
            let a = state.allocations.spec_get(receiver@).unwrap();
            let rec = record_of(state, receiver@);
            let (rec2, paid) = claim_result(state, now, sender, receiver, requested, balance).unwrap();
            sum(
                Seq::new(
                    s.len(),
                    |k: int|
                        if s[k].is_lump_sum() {
                            rec2[k].amount - prior(rec, k)
                        } else {
                            0
                        },
                ),
            ) == min(paid, sum(kind_part(s, new_seq(s, a, now, rec), true)))
        }),
{
    let c = state.campaign.unwrap();
    let s = c.distribution_type@;
    let a = state.allocations.spec_get(receiver@).unwrap();
    let rec = record_of(state, receiver@);
    let ns = new_seq(s, a, now, rec);
    let r = claim_result(state, now, sender, receiver, requested, balance).unwrap().1;
    lemma_campaign_sound(c);
    assert forall|k: int| 0 <= k < ns.len() implies ns[k] >= 0 by {}
    let m = max_claimable(s, a, now, rec);
    assert(crate::claim::claim_amount(requested, m) is Ok);
    assert(r == crate::claim::claim_amount(requested, m).unwrap());
    crate::math::lemma_sum_nonneg(ns);
    lemma_take_total(s, ns, r);
    lemma_lump_priority(s, ns, r);
    let ts = take_seq(s, ns, r);
    let rec2 = merged(rec, ts, now);
    let gained = Seq::new(
        s.len(),
        |k: int|
            if s[k].is_lump_sum() {
                rec2[k].amount - prior(rec, k)
            } else {
                0
            },
    );
    let lumps = Seq::new(
        ns.len(),
        |k: int|
            if s[k].is_lump_sum() {
                take_amount(s, ns, r, k)
            } else {
                0
            },
    );
    assert forall|k: int| 0 <= k < s.len() implies gained[k] == lumps[k] by {
        assert(0 <= ts[k] <= ns[k]);
        lemma_entitled_bounds(s, a, now, k);
        lemma_cap_total(s, a);
    }
    assert(gained =~= lumps);
}

} // verus!
