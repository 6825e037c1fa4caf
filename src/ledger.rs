use vstd::prelude::*;

use crate::address_map::AddressMap;
use crate::types::{Campaign, ContractError, OwnershipFault, SlotClaim};

verus! {

/// The whole persistent state: ownership, the campaign, and the address maps.
pub struct Claimdrop {
    pub owner: Option<String>,
    pub campaign: Option<Campaign>,
    pub allocations: AddressMap<u128>,
    pub claims: AddressMap<Vec<SlotClaim>>,
    pub blacklist: AddressMap<()>,
    pub authorized: AddressMap<()>,
}

/// Sum of every claim record in a list of entries.
pub open spec fn claims_total(s: Seq<(String, Vec<SlotClaim>)>) -> int
    decreases s.len(),
{
    if s.len() == 0 {
        0
    } else {
        claims_total(s.drop_last()) + crate::calculator::record_total(s.last().1@)
    }
}

impl Claimdrop {
    /// The maps keep unique keys and a stored campaign has a valid schedule.
    pub open spec fn wf(&self) -> bool {
        &&& self.allocations.wf()
        &&& self.claims.wf()
        &&& self.blacklist.wf()
        &&& self.authorized.wf()
        &&& self.campaign matches Some(c) ==> c.schedule_ok()
        &&& self.records_fit()
    }

    /// Claim records exist only under a campaign, one entry per slot.
    pub open spec fn records_fit(&self) -> bool {
        forall|k: Seq<char>|
            #![trigger self.claims.spec_get(k)]
            self.claims.spec_get(k) is Some ==> self.campaign is Some
                && self.claims.spec_get(k).unwrap()@.len() == self.campaign.unwrap().distribution_type@.len()
    }

    /// Everything ever claimed, over all addresses.
    pub open spec fn total_claims(&self) -> int {
        claims_total(self.claims.spec_entries())
    }

    /// The campaign's running total matches what the claim records hold.
    pub open spec fn conserved(&self) -> bool {
        match self.campaign {
            Some(c) => c.claimed.amount == self.total_claims(),
            None => self.total_claims() == 0,
        }
    }

    pub open spec fn spec_is_owner(&self, a: Seq<char>) -> bool {
        self.owner matches Some(o) && o@ == a
    }

    pub open spec fn spec_is_authorized(&self, a: Seq<char>) -> bool {
        self.spec_is_owner(a) || self.authorized.spec_get(a) is Some
    }

    pub open spec fn spec_is_blacklisted(&self, a: Seq<char>) -> bool {
        self.blacklist.spec_get(a) is Some
    }

    /// Why `a` fails the owner check, if it does.
    pub open spec fn owner_error(&self, a: Seq<char>) -> Option<ContractError> {
        match self.owner {
            None => Some(ContractError::Ownership { reason: OwnershipFault::NoOwner }),
            Some(o) => if o@ == a {
                None
            } else {
                Some(ContractError::Ownership { reason: OwnershipFault::NotOwner })
            },
        }
    }

    /// A fresh state with the given owner and nothing else.
    pub fn new(owner: Option<String>) -> (s: Self)
        ensures
            s.wf(),
            s.conserved(),
            s.owner == owner,
            s.campaign.is_none(),
            forall|k: Seq<char>| (#[trigger] s.allocations.spec_get(k)) is None,
            forall|k: Seq<char>| (#[trigger] s.claims.spec_get(k)) is None,
            forall|k: Seq<char>| (#[trigger] s.blacklist.spec_get(k)) is None,
            forall|k: Seq<char>| (#[trigger] s.authorized.spec_get(k)) is None,
    {
        let s = Claimdrop {
            owner,
            campaign: None,
            allocations: AddressMap::new(),
            claims: AddressMap::new(),
            blacklist: AddressMap::new(),
            authorized: AddressMap::new(),
        };
        proof {
            assert(s.claims.spec_entries().len() == 0);
        }
        s
    }

    pub fn is_owner(&self, a: &String) -> (r: bool)
        ensures
            r == self.spec_is_owner(a@),
    {
        match &self.owner {
            Some(o) => *o == *a,
            None => false,
        }
    }

    pub fn is_authorized(&self, a: &String) -> (r: bool)
        requires
            self.wf(),
        ensures
            r == self.spec_is_authorized(a@),
    {
        self.is_owner(a) || self.authorized.contains(a)
    }

    pub fn is_blacklisted(&self, a: &String) -> (r: bool)
        requires
            self.wf(),
        ensures
            r == self.spec_is_blacklisted(a@),
    {
        self.blacklist.contains(a)
    }

    /// The allocation of `a`, if any.
    pub fn allocation(&self, a: &String) -> (r: Option<u128>)
        requires
            self.wf(),
        ensures
            r == self.allocations.spec_get(a@),
    {
        match self.allocations.find(a) {
            Some(i) => Some(self.allocations.entry(i).1),
            None => None,
        }
    }

    /// The claim record of `a`, if one was kept.
    pub fn claim_record(&self, a: &String) -> (r: Option<&Vec<SlotClaim>>)
        requires
            self.wf(),
        ensures
            match r {
                Some(v) => self.claims.spec_get(a@) == Some(*v),
                None => self.claims.spec_get(a@) is None,
            },
    {
        match self.claims.find(a) {
            Some(i) => Some(&self.claims.entry(i).1),
            None => None,
        }
    }

    /// Passes only for the current owner.
    pub fn assert_owner(&self, a: &String) -> (r: Result<(), ContractError>)
        ensures
            match self.owner_error(a@) {
                None => r is Ok,
                Some(e) => r == Err::<(), ContractError>(e),
            },
    {
        match &self.owner {
            None => Err(ContractError::Ownership { reason: OwnershipFault::NoOwner }),
            Some(o) => {
                if *o == *a {
                    Ok(())
                } else {
                    Err(ContractError::Ownership { reason: OwnershipFault::NotOwner })
                }
            },
        }
    }

    /// Passes for the owner and for authorized operators.
    pub fn assert_authorized(&self, a: &String) -> (r: Result<(), ContractError>)
        requires
            self.wf(),
        ensures
            r is Ok <==> self.spec_is_authorized(a@),
            r is Err ==> r == Err::<(), ContractError>(ContractError::Unauthorized),
    {
        if self.is_authorized(a) {
            Ok(())
        } else {
            Err(ContractError::Unauthorized)
        }
    }
}

} // verus!
