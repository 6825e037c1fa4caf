use vstd::prelude::*;

use crate::calculator::{
    claimable, ints, lemma_take_total, max_claimable, merge_claims, merged, new_amount, new_seq,
    partition, prior, record_total, record_within, take_seq,
};
use crate::ledger::{claims_total, Claimdrop};
use crate::math::sum;
use crate::schedule::{lemma_campaign_sound, lemma_entitled_bounds};
use crate::types::{BankSend, Campaign, CampaignFault, ClaimAmountFault, Coin, ContractError, SlotClaim};

verus! {

/// The address a claim pays: the named receiver, or else the sender.
pub open spec fn resolve_receiver(sender: String, receiver: Option<String>) -> String {
    match receiver {
        Some(r) => r,
        None => sender,
    }
}

/// The claim record of `a`, empty where none was kept yet.
pub open spec fn record_of(state: Claimdrop, a: Seq<char>) -> Seq<SlotClaim> {
    match state.claims.spec_get(a) {
        Some(v) => v@,
        None => Seq::empty(),
    }
}

/// The amount a claim asks for: the requested amount, or everything claimable.
pub open spec fn claim_amount(requested: Option<u128>, max: int) -> Result<int, ContractError> {
    match requested {
        Some(x) => if x == 0 {
            Err(ContractError::InvalidClaimAmount { reason: ClaimAmountFault::Zero })
        } else if x > max {
            Err(
                ContractError::InvalidClaimAmount {
                    reason: ClaimAmountFault::ExceedsClaimable { requested: x, available: max as u128 },
                },
            )
        } else {
            Ok(x as int)
        },
        None => Ok(max),
    }
}

/// What a claim by `sender` for `receiver` at `now` does, with `balance` of the
/// reward denomination held: the receiver's new claim record and the amount
/// transferred, or the error.
pub open spec fn claim_result(
    state: Claimdrop,
    now: u64,
    sender: String,
    receiver: String,
    requested: Option<u128>,
    balance: u128,
) -> Result<(Seq<SlotClaim>, int), ContractError> {
    match state.campaign {
        None => Err(ContractError::CampaignError { reason: CampaignFault::NoActiveCampaign }),
        Some(c) => if now < c.start_time {
            Err(ContractError::CampaignError { reason: CampaignFault::NotStarted })
        } else if c.closed is Some {
            Err(ContractError::CampaignError { reason: CampaignFault::ClosedCannotClaim })
        } else if !(state.spec_is_authorized(sender@) || sender@ == receiver@) {
            Err(ContractError::Unauthorized)
        } else if state.spec_is_blacklisted(receiver@) {
            Err(ContractError::AddressBlacklisted)
        } else if state.allocations.spec_get(receiver@) is None {
            Err(ContractError::NoAllocationFound { address: receiver })
        } else {
            let a = state.allocations.spec_get(receiver@).unwrap();
            let s = c.distribution_type@;
            let rec = record_of(state, receiver@);
            let m = max_claimable(s, a, now, rec);
            match claim_amount(requested, m) {
                Err(e) => Err(e),
                Ok(r) => if r == 0 {
                    Err(ContractError::NothingToClaim)
                } else if r > balance {
                    Err(ContractError::CampaignError { reason: CampaignFault::NoFundsToClaim })
                } else {
                    let rec2 = merged(rec, take_seq(s, new_seq(s, a, now, rec), r), now);
                    if c.claimed.amount + r > u128::MAX {
                        Err(ContractError::Overflow)
                    } else if record_total(rec2) > a {
                        Err(ContractError::ExceededMaxClaimAmount)
                    } else {
                        Ok((rec2, r))
                    }
                },
            }
        },
    }
}

/// Removing an entry takes its record's total off the sum.
pub proof fn lemma_claims_total_remove(s: Seq<(String, Vec<SlotClaim>)>, i: int)
    requires
        0 <= i < s.len(),
    ensures
        claims_total(s.remove(i)) == claims_total(s) - record_total(s[i].1@),
    decreases s.len(),
{
    if i < s.len() - 1 {
        assert(s.remove(i).drop_last() =~= s.drop_last().remove(i));
        lemma_claims_total_remove(s.drop_last(), i);
    } else {
        assert(s.remove(i) =~= s.drop_last());
    }
}

pub proof fn lemma_prior_sum(rec: Seq<SlotClaim>, n: int)
    requires
        0 <= n,
        rec.len() == 0 || rec.len() == n,
    ensures
        sum(Seq::new(n as nat, |k: int| prior(rec, k))) == record_total(rec),
    decreases n,
{
    if n > 0 {
        let p = Seq::new(n as nat, |k: int| prior(rec, k));
        if rec.len() == 0 {
            lemma_prior_sum(rec, n - 1);
            assert(p.drop_last() =~= Seq::new((n - 1) as nat, |k: int| prior(rec, k)));
        } else {
            lemma_prior_sum(rec.drop_last(), n - 1);
            assert(p.drop_last() =~= Seq::new((n - 1) as nat, |k: int| prior(rec.drop_last(), k)));
        }
    }
}

pub proof fn lemma_merged_total(rec: Seq<SlotClaim>, takes: Seq<int>, t: u64)
    requires
        rec.len() == 0 || rec.len() == takes.len(),
        forall|k: int| 0 <= k < takes.len() ==> 0 <= prior(rec, k) + #[trigger] takes[k] <= u128::MAX,
    ensures
        record_total(merged(rec, takes, t)) == record_total(rec) + sum(takes),
{
    let n = takes.len() as int;
    lemma_prior_sum(rec, n);
    lemma_merged_pointwise(rec, takes, t, n);
    assert(takes.take(n) =~= takes);
    assert(merged(rec, takes, t).take(n) =~= merged(rec, takes, t));
}

proof fn lemma_merged_pointwise(rec: Seq<SlotClaim>, takes: Seq<int>, t: u64, n: int)
    requires
        0 <= n <= takes.len(),
        forall|k: int| 0 <= k < takes.len() ==> 0 <= prior(rec, k) + #[trigger] takes[k] <= u128::MAX,
    ensures
        record_total(merged(rec, takes, t).take(n)) == sum(Seq::new(n as nat, |k: int| prior(rec, k)))
            + sum(takes.take(n)),
    decreases n,
{
    if n > 0 {
        lemma_merged_pointwise(rec, takes, t, n - 1);
        assert(merged(rec, takes, t).take(n).drop_last() =~= merged(rec, takes, t).take(n - 1));
        assert(takes.take(n).drop_last() =~= takes.take(n - 1));
        assert(Seq::new(n as nat, |k: int| prior(rec, k)).drop_last() =~= Seq::new(
            (n - 1) as nat,
            |k: int| prior(rec, k),
        ));
    } else {
        assert(merged(rec, takes, t).take(0) =~= Seq::<SlotClaim>::empty());
        assert(takes.take(0) =~= Seq::<int>::empty());
        assert(Seq::new(0, |k: int| prior(rec, k)) =~= Seq::<int>::empty());
    }
}

/// Claims for `receiver` (or the sender) at `now`: `amount` of the reward, or
/// everything claimable, taken from lump-sum slots before linear ones, paid
/// out of `balance`, and recorded in the receiver's claim record.
pub fn claim(
    state: &mut Claimdrop,
    now: u64,
    sender: &String,
    receiver: Option<String>,
    amount: Option<u128>,
    balance: u128,
) -> (r: Result<BankSend, ContractError>)
    requires
        old(state).wf(),
    ensures
        final(state).wf(),
        old(state).conserved() ==> final(state).conserved(),
        r is Ok ==> {
            let to = resolve_receiver(*sender, receiver);
            &&& final(state).claims.spec_get(to@) is Some
            &&& final(state).allocations.spec_get(to@) is Some
            &&& record_total(final(state).claims.spec_get(to@).unwrap()@)
                <= final(state).allocations.spec_get(to@).unwrap()
        },
        ({
            let to = resolve_receiver(*sender, receiver);
            match claim_result(*old(state), now, *sender, to, amount, balance) {
                Ok((rec2, paid)) => {
                    let c = old(state).campaign.unwrap();
                    &&& r is Ok
                    &&& r.unwrap() == (BankSend {
                        to_address: to,
                        amount: Coin { denom: c.total_reward.denom, amount: paid as u128 },
                    })
                    &&& final(state).campaign == Some(Campaign {
                        claimed: Coin { amount: (c.claimed.amount + paid) as u128, ..c.claimed },
                        ..c
                    })
                    &&& final(state).claims.spec_get(to@) is Some
                    &&& final(state).claims.spec_get(to@).unwrap()@ == rec2
                    &&& forall|k: Seq<char>| k != to@ ==> #[trigger] final(state).claims.spec_get(k) == old(state).claims.spec_get(k)
                    &&& final(state).owner == old(state).owner
                    &&& final(state).allocations == old(state).allocations
                    &&& final(state).blacklist == old(state).blacklist
                    &&& final(state).authorized == old(state).authorized
                    &&& final(state).total_claims() == old(state).total_claims() + paid
                },
                Err(e) => r == Err::<BankSend, ContractError>(e) && *final(state) == *old(state),
            }
        }),
{
    let ghost to = resolve_receiver(*sender, receiver);
    let c = match &state.campaign {
        None => {
            return Err(ContractError::CampaignError { reason: CampaignFault::NoActiveCampaign });
        },
        Some(c) => c,
    };
    if !c.has_started(now) {
        return Err(ContractError::CampaignError { reason: CampaignFault::NotStarted });
    }
    if c.closed.is_some() {
        return Err(ContractError::CampaignError { reason: CampaignFault::ClosedCannotClaim });
    }
    let receiver = match receiver {
        Some(r) => r,
        None => sender.clone(),
    };
    if !(state.is_authorized(sender) || *sender == receiver) {
        return Err(ContractError::Unauthorized);
    }
    if state.is_blacklisted(&receiver) {
        return Err(ContractError::AddressBlacklisted);
    }
    let a = match state.allocations.find(&receiver) {
        None => {
            return Err(ContractError::NoAllocationFound { address: receiver });
        },
        Some(i) => state.allocations.entry(i).1,
    };
    let empty: Vec<SlotClaim> = Vec::new();
    let rec: &Vec<SlotClaim> = match state.claims.find(&receiver) {
        Some(i) => &state.claims.entry(i).1,
        None => &empty,
    };
    let ghost s = c.distribution_type@;
    proof {
        lemma_campaign_sound(*c);
        assert(rec@ == record_of(*old(state), to@));
    }
    let (news, m) = claimable(&c.distribution_type, a, now, rec);
    let requested = match amount {
        Some(x) => {
            if x == 0 {
                return Err(ContractError::InvalidClaimAmount { reason: ClaimAmountFault::Zero });
            }
            if x > m {
                return Err(
                    ContractError::InvalidClaimAmount {
                        reason: ClaimAmountFault::ExceedsClaimable { requested: x, available: m },
                    },
                );
            }
            x
        },
        None => m,
    };
    if requested == 0 {
        return Err(ContractError::NothingToClaim);
    }
    if requested > balance {
        return Err(ContractError::CampaignError { reason: CampaignFault::NoFundsToClaim });
    }
    let ghost ns = new_seq(s, a, now, rec@);
    proof {
        assert forall|k: int| 0 <= k < ns.len() implies ns[k] >= 0 by {}
        lemma_take_total(s, ns, requested as int);
    }
    let (takes, rest) = partition(&c.distribution_type, &news, requested);
    if rest != 0 {
        return Err(
            ContractError::CampaignError { reason: CampaignFault::UndistributedRemainder { remaining: rest } },
        );
    }
    proof {
        assert forall|k: int| 0 <= k < takes@.len() implies 0 <= prior(rec@, k) + #[trigger] takes@[k] <= u128::MAX by {
            assert(ints(takes@)[k] == takes@[k] as int);
            assert(take_seq(s, ns, requested as int)[k] == crate::calculator::take_amount(s, ns, requested as int, k));
            assert(takes@[k] <= ns[k]);
            assert(ns[k] == new_amount(s, a, now, rec@, k));
            lemma_entitled_bounds(s, a, now, k);
            crate::schedule::lemma_cap_total(s, a);
            assert(crate::schedule::cap(s, a, k) <= a);
        }
    }
    let new_rec = merge_claims(rec, &takes, now);
    let claimed = c.claimed.amount;
    if claimed > u128::MAX - requested {
        return Err(ContractError::Overflow);
    }
    if !record_within(&new_rec, a) {
        return Err(ContractError::ExceededMaxClaimAmount);
    }
    let denom = c.total_reward.denom.clone();
    proof {
        lemma_merged_total(rec@, ints(takes@), now);
    }
    let ghost entries_before = state.claims.spec_entries();
    state.claims.insert(receiver.clone(), new_rec);
    proof {
        let after = state.claims.spec_entries();
        match old(state).claims.spec_get(to@) {
            None => {
                assert(after.drop_last() =~= entries_before);
            },
            Some(w) => {
                let i = choose|i: int|
                    0 <= i < entries_before.len() && entries_before[i].0@ == to@
                        && entries_before[i].1 == w && after == entries_before.remove(i).push(
                        (receiver, new_rec),
                    );
                assert(after.drop_last() =~= entries_before.remove(i));
                lemma_claims_total_remove(entries_before, i);
            },
        }
    }
    match &mut state.campaign {
        Some(c) => {
            c.claimed.amount = claimed + requested;
        },
        None => {},
    }
    Ok(BankSend { to_address: receiver, amount: Coin { denom, amount: requested } })
}

} // verus!
