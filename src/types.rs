use vstd::prelude::*;

verus! {

/// Fixed-point scale of a percentage: 18 fractional digits, so `ONE` is 100%.
pub const ONE: u128 = 1_000_000_000_000_000_000;

/// Largest number of allocations accepted in one batch.
pub const MAX_ALLOCATION_BATCH_SIZE: usize = 3000;

/// Largest number of operator addresses accepted in one batch.
pub const MAX_AUTHORIZED_WALLETS_BATCH_SIZE: usize = 1000;

/// Longest campaign name, in characters.
pub const MAX_NAME_LEN: usize = 200;

/// Longest campaign description, in characters.
pub const MAX_DESCRIPTION_LEN: usize = 2000;

/// Longest campaign kind tag, in characters.
pub const MAX_TYPE_LEN: usize = 200;

/// An amount of one token denomination.
#[derive(Debug, Clone, PartialEq, Eq)]
pub struct Coin {
    pub denom: String,
    pub amount: u128,
}

/// One slot of a campaign's composite schedule. `percentage` is a fixed-point
/// fraction scaled by `ONE`.
#[derive(Debug, Clone, Copy, PartialEq, Eq)]
pub enum DistributionType {
    /// The whole share vests at once at `start_time`.
    LumpSum { percentage: u128, start_time: u64 },
    /// The share vests linearly from `start_time` to `end_time`; nothing vests
    /// before `start_time + cliff_duration`.
    LinearVesting {
        percentage: u128,
        start_time: u64,
        end_time: u64,
        cliff_duration: Option<u64>,
    },
}

impl DistributionType {
    pub open spec fn spec_percentage(&self) -> u128 {
        match *self {
            DistributionType::LumpSum { percentage, .. } => percentage,
            DistributionType::LinearVesting { percentage, .. } => percentage,
        }
    }

    pub open spec fn is_lump_sum(&self) -> bool {
        self is LumpSum
    }

    /// The slot has vested in full at time `t`.
    pub open spec fn spec_done(&self, t: u64) -> bool {
        match *self {
            DistributionType::LumpSum { start_time, .. } => t >= start_time,
            DistributionType::LinearVesting { end_time, .. } => t >= end_time,
        }
    }

    /// The slot's own constraints, inside a campaign running from `start` to `end`.
    pub open spec fn spec_valid(&self, start: u64, end: u64) -> bool {
        &&& 0 < self.spec_percentage() <= ONE
        &&& match *self {
            DistributionType::LumpSum { start_time, .. } => start_time >= start,
            DistributionType::LinearVesting { start_time, end_time, cliff_duration, .. } => {
                &&& start_time >= start
                &&& start_time < end_time
                &&& end_time <= end
                &&& match cliff_duration {
                    Some(c) => c < end_time - start_time,
                    None => true,
                }
            },
        }
    }

    pub fn percentage(&self) -> (r: u128)
        ensures
            r == self.spec_percentage(),
    {
        match *self {
            DistributionType::LumpSum { percentage, .. } => percentage,
            DistributionType::LinearVesting { percentage, .. } => percentage,
        }
    }

    pub fn done(&self, t: u64) -> (r: bool)
        ensures
            r == self.spec_done(t),
    {
        match *self {
            DistributionType::LumpSum { start_time, .. } => t >= start_time,
            DistributionType::LinearVesting { end_time, .. } => t >= end_time,
        }
    }

    pub fn lump_sum(&self) -> (r: bool)
        ensures
            r == self.is_lump_sum(),
    {
        match *self {
            DistributionType::LumpSum { .. } => true,
            DistributionType::LinearVesting { .. } => false,
        }
    }
}

/// Sum of the percentages of a schedule.
pub open spec fn percentage_sum(slots: Seq<DistributionType>) -> int
    decreases slots.len(),
{
    if slots.len() == 0 {
        0
    } else {
        percentage_sum(slots.drop_last()) + slots.last().spec_percentage()
    }
}

/// What a campaign is created from.
#[derive(Debug, Clone, PartialEq, Eq)]
pub struct CampaignParams {
    pub name: String,
    pub description: String,
    pub ty: String,
    pub total_reward: Coin,
    pub distribution_type: Vec<DistributionType>,
    pub start_time: u64,
    pub end_time: u64,
}

/// What `manage_campaign` is asked to do.
#[derive(Debug, Clone, PartialEq, Eq)]
pub enum CampaignAction {
    CreateCampaign { params: CampaignParams },
    CloseCampaign,
}

/// The single campaign.
#[derive(Debug, Clone, PartialEq, Eq)]
pub struct Campaign {
    pub name: String,
    pub description: String,
    pub ty: String,
    pub total_reward: Coin,
    pub claimed: Coin,
    pub distribution_type: Vec<DistributionType>,
    pub start_time: u64,
    pub end_time: u64,
    pub closed: Option<u64>,
}

impl Campaign {
    /// A valid schedule: non-empty, every slot valid, percentages summing to one.
    pub open spec fn schedule_ok(&self) -> bool {
        &&& self.distribution_type@.len() > 0
        &&& forall|k: int|
            0 <= k < self.distribution_type@.len() ==> (#[trigger] self.distribution_type@[k]).spec_valid(
                self.start_time,
                self.end_time,
            )
        &&& percentage_sum(self.distribution_type@) == ONE
    }

    pub fn from_params(params: CampaignParams) -> (c: Campaign)
        ensures
            c.name == params.name,
            c.description == params.description,
            c.ty == params.ty,
            c.total_reward == params.total_reward,
            c.claimed.denom == params.total_reward.denom,
            c.claimed.amount == 0,
            c.distribution_type == params.distribution_type,
            c.start_time == params.start_time,
            c.end_time == params.end_time,
            c.closed.is_none(),
    {
        let denom = params.total_reward.denom.clone();
        Campaign {
            name: params.name,
            description: params.description,
            ty: params.ty,
            total_reward: params.total_reward,
            claimed: Coin { denom, amount: 0 },
            distribution_type: params.distribution_type,
            start_time: params.start_time,
            end_time: params.end_time,
            closed: None,
        }
    }

    pub fn has_started(&self, t: u64) -> (r: bool)
        ensures
            r == (t >= self.start_time),
    {
        t >= self.start_time
    }
}

/// What one slot of one address has received so far.
#[derive(Debug, Clone, Copy, PartialEq, Eq)]
pub struct SlotClaim {
    pub amount: u128,
    pub last_timestamp: u64,
}

/// An outbound transfer for the host to execute.
#[derive(Debug, Clone, PartialEq, Eq)]
pub struct BankSend {
    pub to_address: String,
    pub amount: Coin,
}

/// Which campaign parameter was rejected.
#[derive(Debug, Clone, Copy, PartialEq, Eq)]
pub enum CampaignParam {
    Name,
    Description,
    Type,
    TotalReward,
    StartTime,
    EndTime,
    DistributionType,
    Percentage,
    DistributionStartTime,
    DistributionEndTime,
    CliffDuration,
    Amount,
}

/// Why a lifecycle or state rule refused a request.
#[derive(Debug, Clone, PartialEq, Eq)]
pub enum CampaignFault {
    ExistingCampaign,
    NoActiveCampaign,
    AlreadyClosed,
    NotStarted,
    ClosedCannotClaim,
    NoFundsToClaim,
    AllocationsAfterStart,
    RemovalAfterStart,
    OwnerNotBlacklistable,
    RewardDenomNotSweepable { denom: String },
    NothingToSweep { denom: String },
    UndistributedRemainder { remaining: u128 },
}

impl CampaignFault {
    /// A human-readable account of the fault.
    pub fn message(&self) -> String {
        match self {
            CampaignFault::ExistingCampaign => "existing campaign".to_owned(),
            CampaignFault::NoActiveCampaign => "there's not an active campaign".to_owned(),
            CampaignFault::AlreadyClosed => "campaign has already been closed".to_owned(),
            CampaignFault::NotStarted => "not started".to_owned(),
            CampaignFault::ClosedCannotClaim => "has been closed, cannot claim".to_owned(),
            CampaignFault::NoFundsToClaim => "no funds available to claim".to_owned(),
            CampaignFault::AllocationsAfterStart => "cannot upload allocations after campaign has started".to_owned(),
            CampaignFault::RemovalAfterStart => "cannot remove an address allocation after campaign has started".to_owned(),
            CampaignFault::OwnerNotBlacklistable => "Cannot blacklist the campaign owner".to_owned(),
            CampaignFault::RewardDenomNotSweepable { .. } => "Cannot sweep the reward denom. Use CloseCampaign instead".to_owned(),
            CampaignFault::NothingToSweep { .. } => "No tokens of this denom to sweep".to_owned(),
            CampaignFault::UndistributedRemainder { .. } => "Distribution error: tokens remain undistributed".to_owned(),
        }
    }
}

/// Why a requested claim amount was refused.
#[derive(Debug, Clone, Copy, PartialEq, Eq)]
pub enum ClaimAmountFault {
    Zero,
    ExceedsClaimable { requested: u128, available: u128 },
}

/// Why an ownership check failed.
#[derive(Debug, Clone, Copy, PartialEq, Eq)]
pub enum OwnershipFault {
    NoOwner,
    NotOwner,
}

#[derive(Debug, Clone, PartialEq, Eq)]
pub enum ContractError {
    Unauthorized,
    Ownership { reason: OwnershipFault },
    NonPayable,
    Overflow,
    AddressBlacklisted,
    CampaignError { reason: CampaignFault },
    InvalidDistributionTimes { start_time: u64, end_time: u64 },
    InvalidCampaignParam { param: CampaignParam },
    SweepExceedsBalance { requested: u128, available: u128 },
    EmptyAddressList,
    NoAllocationFound { address: String },
    AllocationAlreadyExists { address: String },
    InvalidClaimAmount { reason: ClaimAmountFault },
    NothingToClaim,
    ExceededMaxClaimAmount,
    BatchSizeLimitExceeded { actual: usize, max: usize },
}

} // verus!
