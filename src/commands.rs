use vstd::prelude::*;

use crate::claim::lemma_claims_total_remove;
use crate::ledger::Claimdrop;
use crate::types::{
    BankSend, Campaign, CampaignAction, CampaignFault, CampaignParams, Coin, ContractError,
    OwnershipFault,
    MAX_ALLOCATION_BATCH_SIZE, MAX_AUTHORIZED_WALLETS_BATCH_SIZE,
};
use crate::validate::{params_error, validate_campaign_params};

verus! {

/// `k` is one of the first `n` addresses of `addrs`.
pub open spec fn listed(addrs: Seq<String>, n: int, k: Seq<char>) -> bool {
    exists|j: int| 0 <= j < n && (#[trigger] addrs[j])@ == k
}

/// `k` is one of the addresses of the first `n` pairs of `allocs`.
pub open spec fn allocated_in(allocs: Seq<(String, u128)>, n: int, k: Seq<char>) -> bool {
    exists|j: int| 0 <= j < n && (#[trigger] allocs[j]).0@ == k
}

/// The first pair among the first `n` whose address already has an allocation
/// or occurs earlier in the batch.
pub open spec fn first_duplicate(
    allocs: Seq<(String, u128)>,
    existing: crate::address_map::AddressMap<u128>,
    n: int,
) -> Option<int>
    decreases n,
{
    if n <= 0 {
        None
    } else {
        match first_duplicate(allocs, existing, n - 1) {
            Some(i) => Some(i),
            None => if existing.spec_get(allocs[n - 1].0@) is Some || allocated_in(
                allocs,
                n - 1,
                allocs[n - 1].0@,
            ) {
                Some(n - 1)
            } else {
                None
            },
        }
    }
}

/// A set membership as stored: present (`Some(())`) or absent.
pub open spec fn marker(present: bool) -> Option<()> {
    if present {
        Some(())
    } else {
        None
    }
}

/// Funds must not be attached to a request that does not take any.
pub fn nonpayable(funds: &Vec<Coin>) -> (r: Result<(), ContractError>)
    ensures
        r is Ok <==> funds@.len() == 0,
        r is Err ==> r == Err::<(), ContractError>(ContractError::NonPayable),
{
    if funds.len() == 0 {
        Ok(())
    } else {
        Err(ContractError::NonPayable)
    }
}

/// Blacklists (`blacklist`) or clears `address`; the owner can never be blacklisted.
pub fn blacklist_address(
    state: &mut Claimdrop,
    sender: &String,
    address: String,
    blacklist: bool,
) -> (r: Result<(), ContractError>)
    requires
        old(state).wf(),
    ensures
        final(state).wf(),
        old(state).conserved() ==> final(state).conserved(),
        !old(state).spec_is_authorized(sender@) ==> r == Err::<(), ContractError>(
            ContractError::Unauthorized,
        ),
        old(state).spec_is_authorized(sender@) && old(state).spec_is_owner(address@) ==> r == Err::<
            (),
            ContractError,
        >(ContractError::CampaignError { reason: CampaignFault::OwnerNotBlacklistable }),
        r is Ok <==> old(state).spec_is_authorized(sender@) && !old(state).spec_is_owner(address@),
        r is Err ==> *final(state) == *old(state),
        r is Ok ==> {
            &&& final(state).spec_is_blacklisted(address@) == blacklist
            &&& forall|k: Seq<char>|
                k != address@ ==> #[trigger] final(state).blacklist.spec_get(k) == old(state).blacklist.spec_get(k)
            &&& final(state).owner == old(state).owner
            &&& final(state).campaign == old(state).campaign
            &&& final(state).allocations == old(state).allocations
            &&& final(state).claims == old(state).claims
            &&& final(state).authorized == old(state).authorized
        },
{
    if let Err(e) = state.assert_authorized(sender) {
        return Err(e);
    }
    if state.is_owner(&address) {
        return Err(ContractError::CampaignError { reason: CampaignFault::OwnerNotBlacklistable });
    }
    if blacklist {
        state.blacklist.insert(address, ());
    } else {
        let _ = state.blacklist.remove(&address);
    }
    Ok(())
}

/// Adds (`authorized`) or removes operator addresses; owner only.
pub fn manage_authorized_wallets(
    state: &mut Claimdrop,
    sender: &String,
    addresses: &Vec<String>,
    authorized: bool,
) -> (r: Result<(), ContractError>)
    requires
        old(state).wf(),
    ensures
        final(state).wf(),
        old(state).conserved() ==> final(state).conserved(),
        old(state).owner_error(sender@) matches Some(e) ==> r == Err::<(), ContractError>(e),
        old(state).owner_error(sender@) is None && addresses@.len()
            > MAX_AUTHORIZED_WALLETS_BATCH_SIZE ==> r == Err::<(), ContractError>(
            ContractError::BatchSizeLimitExceeded {
                actual: addresses@.len() as usize,
                max: MAX_AUTHORIZED_WALLETS_BATCH_SIZE,
            },
        ),
        old(state).owner_error(sender@) is None && addresses@.len() == 0 ==> r == Err::<
            (),
            ContractError,
        >(ContractError::EmptyAddressList),
        r is Ok <==> old(state).owner_error(sender@) is None && 0 < addresses@.len()
            <= MAX_AUTHORIZED_WALLETS_BATCH_SIZE,
        r is Err ==> *final(state) == *old(state),
        r is Ok ==> {
            &&& forall|k: Seq<char>|
                listed(addresses@, addresses@.len() as int, k) ==> #[trigger] final(state).authorized.spec_get(k) == marker(authorized)
            &&& forall|k: Seq<char>|
                !listed(addresses@, addresses@.len() as int, k) ==> #[trigger] final(state).authorized.spec_get(k) == old(state).authorized.spec_get(k)
            &&& final(state).owner == old(state).owner
            &&& final(state).campaign == old(state).campaign
            &&& final(state).allocations == old(state).allocations
            &&& final(state).claims == old(state).claims
            &&& final(state).blacklist == old(state).blacklist
        },
{
    if let Err(e) = state.assert_owner(sender) {
        return Err(e);
    }
    if addresses.len() > MAX_AUTHORIZED_WALLETS_BATCH_SIZE {
        return Err(
            ContractError::BatchSizeLimitExceeded {
                actual: addresses.len(),
                max: MAX_AUTHORIZED_WALLETS_BATCH_SIZE,
            },
        );
    }
    if addresses.len() == 0 {
        return Err(ContractError::EmptyAddressList);
    }
    let ghost before = *state;
    let n = addresses.len();
    let mut i: usize = 0;
    while i < n
        invariant
            n == addresses@.len(),
            0 <= i <= n,
            state.wf(),
            state.owner == before.owner,
            state.campaign == before.campaign,
            state.allocations == before.allocations,
            state.claims == before.claims,
            state.blacklist == before.blacklist,
            forall|k: Seq<char>|
                #![trigger state.authorized.spec_get(k)]
                listed(addresses@, i as int, k) ==> state.authorized.spec_get(k) == marker(
                    authorized,
                ),
            forall|k: Seq<char>|
                #![trigger state.authorized.spec_get(k)]
                !listed(addresses@, i as int, k) ==> state.authorized.spec_get(k)
                    == before.authorized.spec_get(k),
        decreases n - i,
    {
        let a = addresses[i].clone();
        let ghost prev = state.authorized;
        if authorized {
            state.authorized.insert(a, ());
        } else {
            let _ = state.authorized.remove(&a);
        }
        proof {
            assert forall|k: Seq<char>| listed(addresses@, i + 1, k) implies #[trigger] state.authorized.spec_get(
                k,
            ) == marker(authorized) by {
                if k != addresses@[i as int]@ {
                    let j = choose|j: int| 0 <= j < i + 1 && (#[trigger] addresses@[j])@ == k;
                    assert(listed(addresses@, i as int, k));
                    assert(state.authorized.spec_get(k) == prev.spec_get(k));
                }
            }
            assert forall|k: Seq<char>| !listed(addresses@, i + 1, k) implies #[trigger] state.authorized.spec_get(
                k,
            ) == before.authorized.spec_get(k) by {
                assert(addresses@[i as int]@ != k);
                assert(!listed(addresses@, i as int, k));
                assert(state.authorized.spec_get(k) == prev.spec_get(k));
            }
        }
        i = i + 1;
    }
    Ok(())
}

/// Removes the allocation of `address` and its blacklist entry; only before the
/// campaign starts. Removing an address without an allocation is no error.
pub fn remove_address(state: &mut Claimdrop, now: u64, sender: &String, address: &String) -> (r: Result<
    (),
    ContractError,
>)
    requires
        old(state).wf(),
    ensures
        final(state).wf(),
        old(state).conserved() ==> final(state).conserved(),
        !old(state).spec_is_authorized(sender@) ==> r == Err::<(), ContractError>(ContractError::Unauthorized),
        old(state).spec_is_authorized(sender@) && (old(state).campaign matches Some(c) && now
            >= c.start_time) ==> r == Err::<(), ContractError>(
            ContractError::CampaignError { reason: CampaignFault::RemovalAfterStart },
        ),
        r is Ok <==> old(state).spec_is_authorized(sender@) && !(old(state).campaign matches Some(c)
            && now >= c.start_time),
        r is Err ==> *final(state) == *old(state),
        r is Ok ==> {
            &&& final(state).allocations.spec_get(address@) is None
            &&& final(state).blacklist.spec_get(address@) is None
            &&& forall|k: Seq<char>| k != address@ ==> #[trigger] final(state).allocations.spec_get(k) == old(state).allocations.spec_get(k)
            &&& forall|k: Seq<char>| k != address@ ==> #[trigger] final(state).blacklist.spec_get(k) == old(state).blacklist.spec_get(k)
            &&& final(state).owner == old(state).owner
            &&& final(state).campaign == old(state).campaign
            &&& final(state).claims == old(state).claims
            &&& final(state).authorized == old(state).authorized
        },
{
    if let Err(e) = state.assert_authorized(sender) {
        return Err(e);
    }
    match &state.campaign {
        Some(c) => {
            if c.has_started(now) {
                return Err(ContractError::CampaignError { reason: CampaignFault::RemovalAfterStart });
            }
        },
        None => {},
    }
    let _ = state.allocations.remove(address);
    let _ = state.blacklist.remove(address);
    Ok(())
}

/// Moves the allocation of `old_address` to `new_address`, together with its
/// claim record and its blacklist entry; allowed at any time.
pub fn replace_address(
    state: &mut Claimdrop,
    sender: &String,
    old_address: &String,
    new_address: String,
) -> (r: Result<(), ContractError>)
    requires
        old(state).wf(),
    ensures
        final(state).wf(),
        old(state).conserved() && old(state).claims.spec_get(new_address@) is None ==> final(state).conserved(),
        !old(state).spec_is_authorized(sender@) ==> r == Err::<(), ContractError>(ContractError::Unauthorized),
        old(state).spec_is_authorized(sender@) && old(state).allocations.spec_get(old_address@) is None
            ==> r == Err::<(), ContractError>(ContractError::NoAllocationFound { address: *old_address }),
        old(state).spec_is_authorized(sender@) && old(state).allocations.spec_get(old_address@) is Some
            && old(state).allocations.spec_get(new_address@) is Some ==> r == Err::<(), ContractError>(
            ContractError::AllocationAlreadyExists { address: new_address },
        ),
        r is Ok <==> old(state).spec_is_authorized(sender@) && old(state).allocations.spec_get(old_address@) is Some
            && old(state).allocations.spec_get(new_address@) is None,
        r is Err ==> *final(state) == *old(state),
        r is Ok ==> {
            &&& final(state).allocations.spec_get(new_address@) == old(state).allocations.spec_get(old_address@)
            &&& final(state).allocations.spec_get(old_address@) is None
            &&& forall|k: Seq<char>| k != old_address@ && k != new_address@ ==> #[trigger] final(state).allocations.spec_get(k) == old(state).allocations.spec_get(k)
            &&& old(state).claims.spec_get(old_address@) is Some ==> {
                &&& final(state).claims.spec_get(new_address@) == old(state).claims.spec_get(old_address@)
                &&& final(state).claims.spec_get(old_address@) is None
            }
            &&& old(state).claims.spec_get(old_address@) is None ==> final(state).claims == old(state).claims
            &&& forall|k: Seq<char>| k != old_address@ && k != new_address@ ==> #[trigger] final(state).claims.spec_get(k) == old(state).claims.spec_get(k)
            &&& old(state).spec_is_blacklisted(old_address@) ==> {
                &&& final(state).spec_is_blacklisted(new_address@)
                &&& !final(state).spec_is_blacklisted(old_address@)
            }
            &&& !old(state).spec_is_blacklisted(old_address@) ==> final(state).blacklist == old(state).blacklist
            &&& forall|k: Seq<char>| k != old_address@ && k != new_address@ ==> #[trigger] final(state).blacklist.spec_get(k) == old(state).blacklist.spec_get(k)
            &&& final(state).owner == old(state).owner
            &&& final(state).campaign == old(state).campaign
            &&& final(state).authorized == old(state).authorized
        },
{
    if let Err(e) = state.assert_authorized(sender) {
        return Err(e);
    }
    if !state.allocations.contains(old_address) {
        return Err(ContractError::NoAllocationFound { address: old_address.clone() });
    }
    if state.allocations.contains(&new_address) {
        return Err(ContractError::AllocationAlreadyExists { address: new_address });
    }
    let amount = match state.allocations.remove(old_address) {
        Some(v) => v,
        None => 0,
    };
    state.allocations.insert(new_address.clone(), amount);
    let ghost entries0 = state.claims.spec_entries();
    match state.claims.remove(old_address) {
        Some(rec) => {
            let ghost entries1 = state.claims.spec_entries();
            let ghost mid = state.claims;
            state.claims.insert(new_address.clone(), rec);
            proof {
                let i = choose|i: int|
                    0 <= i < entries0.len() && entries0[i].0@ == old_address@ && entries0[i].1 == rec
                        && entries1 == entries0.remove(i);
                lemma_claims_total_remove(entries0, i);
                if old(state).claims.spec_get(new_address@) is None {
                    assert(mid.spec_get(new_address@) is None);
                    assert(state.claims.spec_entries().drop_last() =~= entries1);
                }
            }
        },
        None => {},
    }
    if state.blacklist.contains(old_address) {
        let _ = state.blacklist.remove(old_address);
        state.blacklist.insert(new_address, ());
    }
    Ok(())
}

/// Adds a batch of allocations; only before the campaign starts, and never
/// for an address that already has one (or twice in one batch).
pub fn add_allocations(
    state: &mut Claimdrop,
    now: u64,
    sender: &String,
    allocations: Vec<(String, u128)>,
) -> (r: Result<(), ContractError>)
    requires
        old(state).wf(),
    ensures
        final(state).wf(),
        old(state).conserved() ==> final(state).conserved(),
        !old(state).spec_is_authorized(sender@) ==> r == Err::<(), ContractError>(ContractError::Unauthorized),
        old(state).spec_is_authorized(sender@) && allocations@.len() > MAX_ALLOCATION_BATCH_SIZE ==> r
            == Err::<(), ContractError>(
            ContractError::BatchSizeLimitExceeded {
                actual: allocations@.len() as usize,
                max: MAX_ALLOCATION_BATCH_SIZE,
            },
        ),
        old(state).spec_is_authorized(sender@) && allocations@.len() <= MAX_ALLOCATION_BATCH_SIZE && (old(
            state,
        ).campaign matches Some(c) && now >= c.start_time) ==> r == Err::<(), ContractError>(
            ContractError::CampaignError { reason: CampaignFault::AllocationsAfterStart },
        ),
        old(state).spec_is_authorized(sender@) && allocations@.len() <= MAX_ALLOCATION_BATCH_SIZE && !(old(
            state,
        ).campaign matches Some(c) && now >= c.start_time) ==> match first_duplicate(
            allocations@,
            old(state).allocations,
            allocations@.len() as int,
        ) {
            Some(i) => r == Err::<(), ContractError>(
                ContractError::AllocationAlreadyExists { address: allocations@[i].0 },
            ),
            None => r is Ok,
        },
        r is Err ==> *final(state) == *old(state),
        r is Ok ==> {
            &&& forall|i: int| 0 <= i < allocations@.len() ==> final(state).allocations.spec_get(#[trigger] allocations@[i].0@) == Some(allocations@[i].1)
            &&& forall|k: Seq<char>| !allocated_in(allocations@, allocations@.len() as int, k) ==> #[trigger] final(state).allocations.spec_get(k) == old(state).allocations.spec_get(k)
            &&& final(state).owner == old(state).owner
            &&& final(state).campaign == old(state).campaign
            &&& final(state).claims == old(state).claims
            &&& final(state).blacklist == old(state).blacklist
            &&& final(state).authorized == old(state).authorized
        },
{
    if let Err(e) = state.assert_authorized(sender) {
        return Err(e);
    }
    if allocations.len() > MAX_ALLOCATION_BATCH_SIZE {
        return Err(
            ContractError::BatchSizeLimitExceeded {
                actual: allocations.len(),
                max: MAX_ALLOCATION_BATCH_SIZE,
            },
        );
    }
    match &state.campaign {
        Some(c) => {
            if c.has_started(now) {
                return Err(
                    ContractError::CampaignError { reason: CampaignFault::AllocationsAfterStart },
                );
            }
        },
        None => {},
    }
    let ghost a = allocations@;
    let ghost orig = *state;
    let n = allocations.len();
    let mut i: usize = 0;
    while i < n
        invariant
            n == a.len(),
            a == allocations@,
            *state == orig,
            orig.spec_is_authorized(sender@),
            n <= MAX_ALLOCATION_BATCH_SIZE,
            !(orig.campaign matches Some(c) && now >= c.start_time),
            state.wf(),
            0 <= i <= n,
            first_duplicate(a, state.allocations, i as int) is None,
        decreases n - i,
    {
        let mut dup = state.allocations.contains(&allocations[i].0);
        let mut j: usize = 0;
        while j < i
            invariant
                n == a.len(),
                a == allocations@,
                0 <= j <= i < n,
                dup == (state.allocations.spec_get(a[i as int].0@) is Some || allocated_in(
                    a,
                    j as int,
                    a[i as int].0@,
                )),
            decreases i - j,
        {
            if allocations[j].0 == allocations[i].0 {
                dup = true;
            }
            proof {
                if allocated_in(a, j + 1, a[i as int].0@) && !allocated_in(a, j as int, a[i as int].0@) {
                    let w = choose|w: int| 0 <= w < j + 1 && (#[trigger] a[w]).0@ == a[i as int].0@;
                    assert(w == j);
                }
                if a[j as int].0@ == a[i as int].0@ {
                    assert(allocated_in(a, j + 1, a[i as int].0@));
                }
                if allocated_in(a, j as int, a[i as int].0@) {
                    let w = choose|w: int| 0 <= w < j && (#[trigger] a[w]).0@ == a[i as int].0@;
                    assert(allocated_in(a, j + 1, a[i as int].0@));
                }
            }
            j = j + 1;
        }
        if dup {
            proof {
                lemma_duplicate_stays(a, state.allocations, i as int + 1, n as int);
            }
            return Err(ContractError::AllocationAlreadyExists { address: allocations[i].0.clone() });
        }
        i = i + 1;
    }
    let ghost before = *state;
    proof {
        lemma_no_duplicate(a, state.allocations, n as int);
    }
    let mut i: usize = 0;
    while i < n
        invariant
            n == a.len(),
            a == allocations@,
            state.wf(),
            0 <= i <= n,
            forall|x: int, y: int| 0 <= x < y < n ==> (#[trigger] a[x]).0@ != (#[trigger] a[y]).0@,
            forall|x: int| 0 <= x < i ==> state.allocations.spec_get(#[trigger] a[x].0@) == Some(a[x].1),
            forall|k: Seq<char>| !allocated_in(a, i as int, k) ==> #[trigger] state.allocations.spec_get(k) == before.allocations.spec_get(k),
            state.owner == before.owner,
            state.campaign == before.campaign,
            state.claims == before.claims,
            state.blacklist == before.blacklist,
            state.authorized == before.authorized,
            before == orig,
            orig.spec_is_authorized(sender@),
            n <= MAX_ALLOCATION_BATCH_SIZE,
            !(orig.campaign matches Some(c) && now >= c.start_time),
            first_duplicate(a, orig.allocations, n as int) is None,
        decreases n - i,
    {
        let ghost prev = state.allocations;
        let (addr, amount) = (allocations[i].0.clone(), allocations[i].1);
        state.allocations.insert(addr, amount);
        proof {
            assert forall|x: int| 0 <= x < i + 1 implies state.allocations.spec_get(#[trigger] a[x].0@) == Some(a[x].1) by {
                if x < i {
                    assert(a[x].0@ != a[i as int].0@);
                    assert(state.allocations.spec_get(a[x].0@) == prev.spec_get(a[x].0@));
                }
            }
            assert forall|k: Seq<char>| !allocated_in(a, i + 1, k) implies #[trigger] state.allocations.spec_get(k) == before.allocations.spec_get(k) by {
                assert(a[i as int].0@ != k);
                assert(!allocated_in(a, i as int, k));
                assert(state.allocations.spec_get(k) == prev.spec_get(k));
            }
        }
        i = i + 1;
    }
    Ok(())
}

proof fn lemma_duplicate_stays(
    a: Seq<(String, u128)>,
    m: crate::address_map::AddressMap<u128>,
    n: int,
    k: int,
)
    requires
        0 <= n <= k,
        first_duplicate(a, m, n) is Some,
    ensures
        first_duplicate(a, m, k) == first_duplicate(a, m, n),
    decreases k - n,
{
    if n < k {
        lemma_duplicate_stays(a, m, n, k - 1);
    }
}

proof fn lemma_no_duplicate(a: Seq<(String, u128)>, m: crate::address_map::AddressMap<u128>, n: int)
    requires
        0 <= n <= a.len(),
        first_duplicate(a, m, n) is None,
    ensures
        forall|x: int, y: int| 0 <= x < y < n ==> (#[trigger] a[x]).0@ != (#[trigger] a[y]).0@,
    decreases n,
{
    if n > 0 {
        lemma_no_duplicate(a, m, n - 1);
        assert(!allocated_in(a, n - 1, a[n - 1].0@));
        assert forall|x: int, y: int| 0 <= x < y < n implies (#[trigger] a[x]).0@ != (#[trigger] a[y]).0@ by {
            if y == n - 1 && a[x].0@ == a[y].0@ {
                assert(allocated_in(a, n - 1, a[n - 1].0@));
            }
        }
    }
}

/// What `sweep` does for `sender` with `balance` of `denom` held: the amount
/// to send to the owner, or the error.
pub open spec fn sweep_outcome(
    state: Claimdrop,
    sender: Seq<char>,
    denom: String,
    amount: Option<u128>,
    balance: u128,
) -> Result<u128, ContractError> {
    if state.owner_error(sender) is Some {
        Err(state.owner_error(sender).unwrap())
    } else if state.campaign matches Some(c) && c.total_reward.denom@ == denom@ {
        Err(
            ContractError::CampaignError {
                reason: CampaignFault::RewardDenomNotSweepable {
                    denom: state.campaign.unwrap().total_reward.denom,
                },
            },
        )
    } else if amount matches Some(a) && a > balance {
        Err(ContractError::SweepExceedsBalance { requested: amount.unwrap(), available: balance })
    } else {
        let v = match amount {
            Some(a) => a,
            None => balance,
        };
        if v == 0 {
            Err(ContractError::CampaignError { reason: CampaignFault::NothingToSweep { denom } })
        } else {
            Ok(v)
        }
    }
}

/// Sends tokens other than the reward denomination held by the contract
/// (`balance` of `denom`) to the owner: `amount` of them, or all. Owner only.
pub fn sweep(
    state: &Claimdrop,
    sender: &String,
    denom: String,
    amount: Option<u128>,
    balance: u128,
) -> (r: Result<BankSend, ContractError>)
    ensures
        match sweep_outcome(*state, sender@, denom, amount, balance) {
            Ok(v) => {
                &&& r is Ok
                &&& r.unwrap().amount == (Coin { denom, amount: v })
                &&& state.owner is Some
                &&& r.unwrap().to_address == state.owner.unwrap()
            },
            Err(e) => r == Err::<BankSend, ContractError>(e),
        },
{
    if let Err(e) = state.assert_owner(sender) {
        return Err(e);
    }
    match &state.campaign {
        Some(c) => {
            if c.total_reward.denom == denom {
                return Err(
                    ContractError::CampaignError {
                        reason: CampaignFault::RewardDenomNotSweepable {
                            denom: c.total_reward.denom.clone(),
                        },
                    },
                );
            }
        },
        None => {},
    }
    let v = match amount {
        Some(a) => {
            if a > balance {
                return Err(ContractError::SweepExceedsBalance { requested: a, available: balance });
            }
            a
        },
        None => balance,
    };
    if v == 0 {
        return Err(ContractError::CampaignError { reason: CampaignFault::NothingToSweep { denom } });
    }
    let owner = match &state.owner {
        Some(o) => o.clone(),
        None => String::new(),
    };
    Ok(BankSend { to_address: owner, amount: Coin { denom, amount: v } })
}

/// The state after creating a campaign from `params` at `now`, or the error.
pub open spec fn create_result(
    state: Claimdrop,
    now: u64,
    funds: Seq<Coin>,
    params: CampaignParams,
) -> Result<Claimdrop, ContractError> {
    if funds.len() > 0 {
        Err(ContractError::NonPayable)
    } else if state.campaign is Some {
        Err(ContractError::CampaignError { reason: CampaignFault::ExistingCampaign })
    } else {
        match params_error(now, params) {
            Some(e) => Err(e),
            None => Ok(
                Claimdrop {
                    campaign: Some(
                        Campaign {
                            name: params.name,
                            description: params.description,
                            ty: params.ty,
                            total_reward: params.total_reward,
                            claimed: Coin { denom: params.total_reward.denom, amount: 0 },
                            distribution_type: params.distribution_type,
                            start_time: params.start_time,
                            end_time: params.end_time,
                            closed: None,
                        },
                    ),
                    ..state
                },
            ),
        }
    }
}

/// Creates the campaign from `params` at `now`; no funds may be attached.
pub fn create_campaign(
    state: &mut Claimdrop,
    now: u64,
    funds: &Vec<Coin>,
    params: CampaignParams,
) -> (r: Result<(), ContractError>)
    requires
        old(state).wf(),
        old(state).conserved(),
    ensures
        final(state).wf(),
        final(state).conserved(),
        match create_result(*old(state), now, funds@, params) {
            Ok(s) => r is Ok && *final(state) == s,
            Err(e) => r == Err::<(), ContractError>(e) && *final(state) == *old(state),
        },
{
    if let Err(e) = nonpayable(funds) {
        return Err(e);
    }
    if state.campaign.is_some() {
        return Err(ContractError::CampaignError { reason: CampaignFault::ExistingCampaign });
    }
    if let Err(e) = validate_campaign_params(now, &params) {
        return Err(e);
    }
    let c = Campaign::from_params(params);
    state.campaign = Some(c);
    Ok(())
}

/// The state and transfers after closing the campaign at `now` with `balance`
/// of the reward denomination held, or the error.
pub open spec fn close_result(state: Claimdrop, now: u64, balance: u128) -> Result<
    (Claimdrop, Seq<BankSend>),
    ContractError,
> {
    match state.campaign {
        None => Err(ContractError::CampaignError { reason: CampaignFault::NoActiveCampaign }),
        Some(c) => if c.closed is Some {
            Err(ContractError::CampaignError { reason: CampaignFault::AlreadyClosed })
        } else if balance > 0 && state.owner is None {
            Err(ContractError::Ownership { reason: OwnershipFault::NoOwner })
        } else {
            let msgs = if balance == 0 {
                Seq::empty()
            } else {
                seq![
                    BankSend {
                        to_address: state.owner.unwrap(),
                        amount: Coin { denom: c.total_reward.denom, amount: balance },
                    },
                ]
            };
            Ok((Claimdrop { campaign: Some(Campaign { closed: Some(now), ..c }), ..state }, msgs))
        },
    }
}

/// Closes the open campaign at `now` and refunds the contract's `balance` of
/// the reward denomination to the owner.
pub fn close_campaign(state: &mut Claimdrop, now: u64, balance: u128) -> (r: Result<
    Vec<BankSend>,
    ContractError,
>)
    requires
        old(state).wf(),
    ensures
        final(state).wf(),
        old(state).conserved() ==> final(state).conserved(),
        match close_result(*old(state), now, balance) {
            Ok((s, msgs)) => r is Ok && r.unwrap()@ == msgs && *final(state) == s,
            Err(e) => r == Err::<Vec<BankSend>, ContractError>(e) && *final(state) == *old(state),
        },
{
    let denom = match &state.campaign {
        None => {
            return Err(ContractError::CampaignError { reason: CampaignFault::NoActiveCampaign });
        },
        Some(c) => {
            if c.closed.is_some() {
                return Err(ContractError::CampaignError { reason: CampaignFault::AlreadyClosed });
            }
            c.total_reward.denom.clone()
        },
    };
    let mut messages: Vec<BankSend> = Vec::new();
    if balance > 0 {
        match &state.owner {
            None => {
                return Err(ContractError::Ownership { reason: OwnershipFault::NoOwner });
            },
            Some(o) => {
                messages.push(
                    BankSend { to_address: o.clone(), amount: Coin { denom, amount: balance } },
                );
            },
        }
    }
    match &mut state.campaign {
        Some(c) => {
            c.closed = Some(now);
        },
        None => {},
    }
    Ok(messages)
}

/// Creates or closes the campaign; owner or operator only, and no funds may
/// be attached. `balance` is the contract's holding of the reward denomination.
pub fn manage_campaign(
    state: &mut Claimdrop,
    now: u64,
    sender: &String,
    funds: &Vec<Coin>,
    action: CampaignAction,
    balance: u128,
) -> (r: Result<Vec<BankSend>, ContractError>)
    requires
        old(state).wf(),
        old(state).conserved(),
    ensures
        final(state).wf(),
        final(state).conserved(),
        !old(state).spec_is_authorized(sender@) ==> r == Err::<Vec<BankSend>, ContractError>(
            ContractError::Unauthorized,
        ) && *final(state) == *old(state),
        old(state).spec_is_authorized(sender@) ==> match action {
            CampaignAction::CreateCampaign { params } => match create_result(
                *old(state),
                now,
                funds@,
                params,
            ) {
                Ok(s) => r is Ok && r.unwrap()@.len() == 0 && *final(state) == s,
                Err(e) => r == Err::<Vec<BankSend>, ContractError>(e) && *final(state) == *old(state),
            },
            CampaignAction::CloseCampaign => if funds@.len() > 0 {
                r == Err::<Vec<BankSend>, ContractError>(ContractError::NonPayable) && *final(state)
                    == *old(state)
            } else {
                match close_result(*old(state), now, balance) {
                    Ok((s, msgs)) => r is Ok && r.unwrap()@ == msgs && *final(state) == s,
                    Err(e) => r == Err::<Vec<BankSend>, ContractError>(e) && *final(state)
                        == *old(state),
                }
            },
        },
{
    if let Err(e) = state.assert_authorized(sender) {
        return Err(e);
    }
    match action {
        CampaignAction::CreateCampaign { params } => {
            match create_campaign(state, now, funds, params) {
                Ok(()) => Ok(Vec::new()),
                Err(e) => Err(e),
            }
        },
        CampaignAction::CloseCampaign => {
            if let Err(e) = nonpayable(funds) {
                return Err(e);
            }
            close_campaign(state, now, balance)
        },
    }
}

} // verus!
