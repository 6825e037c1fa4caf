use claimdrop::calculator::{claimable, partition};
use claimdrop::claim::claim;
use claimdrop::commands::{
    add_allocations, blacklist_address, create_campaign, manage_authorized_wallets, manage_campaign,
    remove_address, replace_address,
};
use claimdrop::ledger::Claimdrop;
use claimdrop::schedule::{target_amount, vested_amount};
use claimdrop::types::{
    CampaignAction, CampaignFault, CampaignParam, CampaignParams, ClaimAmountFault, Coin,
    ContractError, DistributionType, OwnershipFault, SlotClaim, ONE,
};
use claimdrop::validate::validate_campaign_params;

const NOW: u64 = 1_000_000;
const DAY: u64 = 86_400;

fn s(x: &str) -> String {
    x.to_string()
}

fn params_with(slots: Vec<DistributionType>) -> CampaignParams {
    CampaignParams {
        name: s("Campaign"),
        description: s("A campaign"),
        ty: s("airdrop"),
        total_reward: Coin { denom: s("uom"), amount: 1_000_000 },
        distribution_type: slots,
        start_time: NOW + 1,
        end_time: NOW + 30 * DAY,
    }
}

fn setup(slots: Vec<DistributionType>, allocations: Vec<(String, u128)>) -> Claimdrop {
    let mut state = Claimdrop::new(Some(s("owner")));
    create_campaign(&mut state, NOW, &vec![], params_with(slots)).unwrap();
    add_allocations(&mut state, NOW, &s("owner"), allocations).unwrap();
    state
}

fn record(state: &Claimdrop, who: &str) -> Vec<u128> {
    state.claim_record(&s(who)).map(|r| r.iter().map(|c| c.amount).collect()).unwrap_or_default()
}

fn claimed(state: &Claimdrop) -> u128 {
    state.campaign.as_ref().unwrap().claimed.amount
}

fn mixed() -> Vec<DistributionType> {
    vec![
        DistributionType::LumpSum { percentage: ONE / 2, start_time: NOW + 10 },
        DistributionType::LinearVesting {
            percentage: ONE / 2,
            start_time: NOW + 10,
            end_time: NOW + 100,
            cliff_duration: None,
        },
    ]
}

fn linear(start: u64, end: u64, cliff: Option<u64>) -> Vec<DistributionType> {
    vec![DistributionType::LinearVesting {
        percentage: ONE,
        start_time: start,
        end_time: end,
        cliff_duration: cliff,
    }]
}

fn thirds() -> Vec<DistributionType> {
    vec![
        DistributionType::LumpSum { percentage: 333_333_333_333_333_333, start_time: NOW + 10 },
        DistributionType::LumpSum { percentage: 333_333_333_333_333_333, start_time: NOW + 20 },
        DistributionType::LinearVesting {
            percentage: 333_333_333_333_333_334,
            start_time: NOW + 10,
            end_time: NOW + 100,
            cliff_duration: None,
        },
    ]
}

#[test]
fn partial_claims_drain_lump_sums_first() {
    let mut state = setup(mixed(), vec![(s("bob"), 1000)]);
    let bob = s("bob");
    let t = NOW + DAY;
    let sent = claim(&mut state, t, &bob, None, Some(300), 10_000).unwrap();
    assert_eq!(sent.amount.amount, 300);
    assert_eq!(record(&state, "bob"), vec![300, 0]);
    claim(&mut state, t, &bob, None, Some(200), 10_000).unwrap();
    assert_eq!(record(&state, "bob"), vec![500, 0]);
    let sent = claim(&mut state, t, &bob, None, None, 10_000).unwrap();
    assert_eq!(sent.amount.amount, 500);
    assert_eq!(record(&state, "bob"), vec![500, 500]);
    assert_eq!(claimed(&state), 1000);
    let stamps: Vec<u64> = state.claim_record(&bob).unwrap().iter().map(|c| c.last_timestamp).collect();
    assert_eq!(stamps, vec![t, t]);
}

#[test]
fn partial_claim_overflows_into_linear_slot() {
    let mut state = setup(mixed(), vec![(s("bob"), 1000)]);
    claim(&mut state, NOW + DAY, &s("bob"), None, Some(700), 10_000).unwrap();
    assert_eq!(record(&state, "bob"), vec![500, 200]);
}

#[test]
fn rounding_loss_goes_to_last_slot_once_all_done() {
    let mut state = setup(thirds(), vec![(s("bob"), 1000)]);
    let sent = claim(&mut state, NOW + DAY, &s("bob"), None, None, 10_000).unwrap();
    assert_eq!(sent.amount.amount, 1000);
    assert_eq!(record(&state, "bob"), vec![333, 333, 334]);
}

#[test]
fn no_compensation_while_a_slot_is_vesting() {
    let mut state = setup(thirds(), vec![(s("bob"), 1000)]);
    // at NOW + 55 the linear slot is half way: 333 * 45 / 90 = 166
    let sent = claim(&mut state, NOW + 55, &s("bob"), None, None, 10_000).unwrap();
    assert_eq!(sent.amount.amount, 333 + 333 + 166);
    let sent = claim(&mut state, NOW + 100, &s("bob"), None, None, 10_000).unwrap();
    assert_eq!(sent.amount.amount, 1000 - 832);
    assert_eq!(record(&state, "bob"), vec![333, 333, 334]);
    let err = claim(&mut state, NOW + 200, &s("bob"), None, None, 10_000).unwrap_err();
    assert_eq!(err, ContractError::NothingToClaim);
}

#[test]
fn full_vest_of_a_huge_allocation() {
    let big: u128 = 1 << 120;
    let mut state = setup(thirds(), vec![(s("bob"), big)]);
    let sent = claim(&mut state, NOW + DAY, &s("bob"), None, None, u128::MAX).unwrap();
    assert_eq!(sent.amount.amount, big);
    assert_eq!(record(&state, "bob").iter().sum::<u128>(), big);
}

#[test]
fn linear_vesting_half_way() {
    let mut state = setup(linear(NOW + 10, NOW + 110, None), vec![(s("bob"), 1000)]);
    let sent = claim(&mut state, NOW + 60, &s("bob"), None, None, 10_000).unwrap();
    assert_eq!(sent.amount.amount, 500);
    let sent = claim(&mut state, NOW + 85, &s("bob"), None, None, 10_000).unwrap();
    assert_eq!(sent.amount.amount, 250);
}

#[test]
fn cliff_holds_back_vesting() {
    let mut state = setup(linear(NOW + 10, NOW + 110, Some(50)), vec![(s("bob"), 1000)]);
    let err = claim(&mut state, NOW + 40, &s("bob"), None, None, 10_000).unwrap_err();
    assert_eq!(err, ContractError::NothingToClaim);
    let sent = claim(&mut state, NOW + 60, &s("bob"), None, None, 10_000).unwrap();
    assert_eq!(sent.amount.amount, 500);
}

#[test]
fn nothing_to_claim_before_any_slot_starts() {
    let slots = vec![DistributionType::LumpSum { percentage: ONE, start_time: NOW + 1000 }];
    let mut state = setup(slots, vec![(s("bob"), 1000)]);
    let err = claim(&mut state, NOW + 10, &s("bob"), None, None, 10_000).unwrap_err();
    assert_eq!(err, ContractError::NothingToClaim);
    assert!(state.claim_record(&s("bob")).is_none());
}

#[test]
fn claimed_total_matches_records() {
    let mut state = setup(mixed(), vec![(s("bob"), 1000), (s("carol"), 401)]);
    claim(&mut state, NOW + 55, &s("bob"), None, None, 10_000).unwrap();
    claim(&mut state, NOW + 55, &s("carol"), None, Some(150), 10_000).unwrap();
    claim(&mut state, NOW + DAY, &s("carol"), None, None, 10_000).unwrap();
    let total: u128 = record(&state, "bob").iter().sum::<u128>() + record(&state, "carol").iter().sum::<u128>();
    assert_eq!(claimed(&state), total);
    assert_eq!(record(&state, "carol").iter().sum::<u128>(), 401);
    assert!(record(&state, "bob").iter().sum::<u128>() <= 1000);
}

#[test]
fn claims_never_lower_a_slot() {
    let mut state = setup(mixed(), vec![(s("bob"), 1000)]);
    let mut last = vec![0u128, 0];
    for (t, amount) in [(NOW + 20, Some(100)), (NOW + 40, None), (NOW + 70, Some(50)), (NOW + DAY, None)] {
        claim(&mut state, t, &s("bob"), None, amount, 10_000).unwrap();
        let now = record(&state, "bob");
        assert!(now.iter().zip(last.iter()).all(|(a, b)| a >= b));
        last = now;
    }
    assert_eq!(last.iter().sum::<u128>(), 1000);
}

#[test]
fn replaying_the_same_requests_gives_the_same_result() {
    let run = || {
        let mut state = setup(mixed(), vec![(s("bob"), 1000)]);
        let a = claim(&mut state, NOW + 30, &s("bob"), None, Some(600), 10_000).unwrap();
        let b = claim(&mut state, NOW + DAY, &s("bob"), None, None, 10_000).unwrap();
        (a, b, record(&state, "bob"), claimed(&state))
    };
    assert_eq!(run(), run());
}

#[test]
fn claim_fails_beyond_balance() {
    let mut state = setup(mixed(), vec![(s("bob"), 1000)]);
    let err = claim(&mut state, NOW + DAY, &s("bob"), None, None, 999).unwrap_err();
    assert_eq!(err, ContractError::CampaignError { reason: CampaignFault::NoFundsToClaim });
    assert!(state.claim_record(&s("bob")).is_none());
    claim(&mut state, NOW + DAY, &s("bob"), None, Some(999), 999).unwrap();
}

#[test]
fn claim_amount_errors() {
    let mut state = setup(mixed(), vec![(s("bob"), 1000)]);
    let err = claim(&mut state, NOW + DAY, &s("bob"), None, Some(0), 10_000).unwrap_err();
    assert_eq!(err, ContractError::InvalidClaimAmount { reason: ClaimAmountFault::Zero });
    let err = claim(&mut state, NOW + DAY, &s("bob"), None, Some(1001), 10_000).unwrap_err();
    assert_eq!(
        err,
        ContractError::InvalidClaimAmount {
            reason: ClaimAmountFault::ExceedsClaimable { requested: 1001, available: 1000 }
        }
    );
}

#[test]
fn claim_access_rules() {
    let mut state = setup(mixed(), vec![(s("bob"), 1000), (s("eve"), 10)]);
    let t = NOW + DAY;
    let err = claim(&mut state, t, &s("mallory"), Some(s("bob")), None, 10_000).unwrap_err();
    assert_eq!(err, ContractError::Unauthorized);
    let err = claim(&mut state, t, &s("mallory"), None, None, 10_000).unwrap_err();
    assert_eq!(err, ContractError::NoAllocationFound { address: s("mallory") });
    blacklist_address(&mut state, &s("owner"), s("eve"), true).unwrap();
    let err = claim(&mut state, t, &s("eve"), None, None, 10_000).unwrap_err();
    assert_eq!(err, ContractError::AddressBlacklisted);
    let sent = claim(&mut state, t, &s("owner"), Some(s("bob")), None, 10_000).unwrap();
    assert_eq!(sent.to_address, s("bob"));
    assert_eq!(sent.amount.amount, 1000);
}

#[test]
fn claim_lifecycle_errors() {
    let mut empty = Claimdrop::new(Some(s("owner")));
    let err = claim(&mut empty, NOW, &s("bob"), None, None, 10).unwrap_err();
    assert_eq!(err, ContractError::CampaignError { reason: CampaignFault::NoActiveCampaign });
    let mut state = setup(mixed(), vec![(s("bob"), 1000)]);
    let err = claim(&mut state, NOW, &s("bob"), None, None, 10).unwrap_err();
    assert_eq!(err, ContractError::CampaignError { reason: CampaignFault::NotStarted });
    manage_campaign(&mut state, NOW + 5, &s("owner"), &vec![], CampaignAction::CloseCampaign, 0).unwrap();
    let err = claim(&mut state, NOW + DAY, &s("bob"), None, None, 10).unwrap_err();
    assert_eq!(err, ContractError::CampaignError { reason: CampaignFault::ClosedCannotClaim });
    let err = manage_campaign(&mut state, NOW + 6, &s("owner"), &vec![], CampaignAction::CloseCampaign, 0)
        .unwrap_err();
    assert_eq!(err, ContractError::CampaignError { reason: CampaignFault::AlreadyClosed });
}

#[test]
fn campaign_creation_rules() {
    let mut state = Claimdrop::new(Some(s("owner")));
    let create = |state: &mut Claimdrop, sender: &str, funds: Vec<Coin>, p: CampaignParams| {
        manage_campaign(state, NOW, &s(sender), &funds, CampaignAction::CreateCampaign { params: p }, 0)
    };
    let err = create(&mut state, "bob", vec![], params_with(mixed())).unwrap_err();
    assert_eq!(err, ContractError::Unauthorized);
    let funds = vec![Coin { denom: s("uom"), amount: 1 }];
    let err = create(&mut state, "owner", funds, params_with(mixed())).unwrap_err();
    assert_eq!(err, ContractError::NonPayable);
    create(&mut state, "owner", vec![], params_with(mixed())).unwrap();
    let err = create(&mut state, "owner", vec![], params_with(mixed())).unwrap_err();
    assert_eq!(err, ContractError::CampaignError { reason: CampaignFault::ExistingCampaign });
    assert_eq!(state.campaign.as_ref().unwrap().claimed, Coin { denom: s("uom"), amount: 0 });
}

#[test]
fn parameter_validation_errors() {
    let check = |p: &CampaignParams| validate_campaign_params(NOW, p);
    let param = |param: CampaignParam| Err(ContractError::InvalidCampaignParam { param });

    let mut p = params_with(mixed());
    assert_eq!(check(&p), Ok(()));
    p.name = s("");
    assert_eq!(check(&p), param(CampaignParam::Name));
    let mut p = params_with(mixed());
    p.description = "x".repeat(2001);
    assert_eq!(check(&p), param(CampaignParam::Description));
    let mut p = params_with(mixed());
    p.ty = s("");
    assert_eq!(check(&p), param(CampaignParam::Type));
    let mut p = params_with(mixed());
    p.total_reward.amount = 0;
    assert_eq!(check(&p), param(CampaignParam::TotalReward));
    let mut p = params_with(mixed());
    p.start_time = NOW;
    assert_eq!(check(&p), param(CampaignParam::StartTime));
    let mut p = params_with(mixed());
    p.end_time = p.start_time;
    assert_eq!(check(&p), param(CampaignParam::EndTime));
    assert_eq!(check(&params_with(vec![])), param(CampaignParam::DistributionType));
    let half = vec![DistributionType::LumpSum { percentage: ONE / 2, start_time: NOW + 10 }];
    assert_eq!(check(&params_with(half)), param(CampaignParam::Percentage));
    let zero = vec![DistributionType::LumpSum { percentage: 0, start_time: NOW + 10 }];
    assert_eq!(check(&params_with(zero)), param(CampaignParam::Percentage));
    let early = vec![DistributionType::LumpSum { percentage: ONE, start_time: NOW }];
    assert_eq!(check(&params_with(early)), param(CampaignParam::DistributionStartTime));
    let late = linear(NOW + 10, NOW + 31 * DAY, None);
    assert_eq!(check(&params_with(late)), param(CampaignParam::DistributionEndTime));
    let cliff = linear(NOW + 10, NOW + 110, Some(100));
    assert_eq!(check(&params_with(cliff)), param(CampaignParam::CliffDuration));
}

#[test]
fn allocation_batch_rules() {
    let mut state = setup(mixed(), vec![(s("bob"), 1000)]);
    let owner = s("owner");
    let err = add_allocations(&mut state, NOW, &s("bob"), vec![(s("x"), 1)]).unwrap_err();
    assert_eq!(err, ContractError::Unauthorized);
    let big: Vec<(String, u128)> = (0..3001).map(|i| (format!("addr{i}"), 1)).collect();
    let err = add_allocations(&mut state, NOW, &owner, big).unwrap_err();
    assert_eq!(err, ContractError::BatchSizeLimitExceeded { actual: 3001, max: 3000 });
    let err = add_allocations(&mut state, NOW, &owner, vec![(s("x"), 1), (s("bob"), 5)]).unwrap_err();
    assert_eq!(err, ContractError::AllocationAlreadyExists { address: s("bob") });
    assert_eq!(state.allocation(&s("x")), None);
    let err = add_allocations(&mut state, NOW, &owner, vec![(s("y"), 1), (s("y"), 2)]).unwrap_err();
    assert_eq!(err, ContractError::AllocationAlreadyExists { address: s("y") });
    add_allocations(&mut state, NOW, &owner, vec![(s("y"), 7), (s("z"), 8)]).unwrap();
    assert_eq!(state.allocation(&s("y")), Some(7));
    assert_eq!(state.allocation(&s("z")), Some(8));
    let err = add_allocations(&mut state, NOW + 1, &owner, vec![(s("w"), 1)]).unwrap_err();
    assert_eq!(err, ContractError::CampaignError { reason: CampaignFault::AllocationsAfterStart });
}

#[test]
fn remove_address_rules() {
    let mut state = setup(mixed(), vec![(s("bob"), 1000)]);
    let owner = s("owner");
    blacklist_address(&mut state, &owner, s("bob"), true).unwrap();
    remove_address(&mut state, NOW, &owner, &s("bob")).unwrap();
    assert_eq!(state.allocation(&s("bob")), None);
    assert!(!state.is_blacklisted(&s("bob")));
    remove_address(&mut state, NOW, &owner, &s("bob")).unwrap();
    let err = remove_address(&mut state, NOW + 1, &owner, &s("bob")).unwrap_err();
    assert_eq!(err, ContractError::CampaignError { reason: CampaignFault::RemovalAfterStart });
    let err = remove_address(&mut state, NOW, &s("bob"), &s("bob")).unwrap_err();
    assert_eq!(err, ContractError::Unauthorized);
}

#[test]
fn replace_address_moves_everything() {
    let mut state = setup(mixed(), vec![(s("bob"), 1000), (s("carol"), 5)]);
    let owner = s("owner");
    claim(&mut state, NOW + 20, &s("bob"), None, Some(100), 10_000).unwrap();
    blacklist_address(&mut state, &owner, s("bob"), true).unwrap();
    let err = replace_address(&mut state, &owner, &s("nobody"), s("dave")).unwrap_err();
    assert_eq!(err, ContractError::NoAllocationFound { address: s("nobody") });
    let err = replace_address(&mut state, &owner, &s("bob"), s("carol")).unwrap_err();
    assert_eq!(err, ContractError::AllocationAlreadyExists { address: s("carol") });
    replace_address(&mut state, &owner, &s("bob"), s("dave")).unwrap();
    assert_eq!(state.allocation(&s("dave")), Some(1000));
    assert_eq!(state.allocation(&s("bob")), None);
    assert_eq!(record(&state, "dave"), vec![100, 0]);
    assert!(state.claim_record(&s("bob")).is_none());
    assert!(state.is_blacklisted(&s("dave")));
    assert!(!state.is_blacklisted(&s("bob")));
}

#[test]
fn authorized_wallet_rules() {
    let mut state = Claimdrop::new(Some(s("owner")));
    let owner = s("owner");
    let err = manage_authorized_wallets(&mut state, &s("bob"), &vec![s("x")], true).unwrap_err();
    assert_eq!(err, ContractError::Ownership { reason: OwnershipFault::NotOwner });
    let err = manage_authorized_wallets(&mut state, &owner, &vec![], true).unwrap_err();
    assert_eq!(err, ContractError::EmptyAddressList);
    let many: Vec<String> = (0..1001).map(|i| format!("w{i}")).collect();
    let err = manage_authorized_wallets(&mut state, &owner, &many, true).unwrap_err();
    assert_eq!(err, ContractError::BatchSizeLimitExceeded { actual: 1001, max: 1000 });
    manage_authorized_wallets(&mut state, &owner, &vec![s("op")], true).unwrap();
    assert!(state.is_authorized(&s("op")));
    manage_authorized_wallets(&mut state, &owner, &vec![s("op")], false).unwrap();
    assert!(!state.is_authorized(&s("op")));
    let mut ownerless = Claimdrop::new(None);
    let err = manage_authorized_wallets(&mut ownerless, &owner, &vec![s("op")], true).unwrap_err();
    assert_eq!(err, ContractError::Ownership { reason: OwnershipFault::NoOwner });
}

#[test]
fn slot_share_uses_the_fraction() {
    let half = DistributionType::LumpSum { percentage: ONE / 2, start_time: 0 };
    assert_eq!(target_amount(&half, 1001), 500);
    let third = DistributionType::LumpSum { percentage: 333_333_333_333_333_333, start_time: 0 };
    // floor((2^128 - 1) * 333333333333333333 / 10^18)
    assert_eq!(target_amount(&third, u128::MAX), 113_427_455_640_312_821_041_030_746_836_943_249_330);
}

#[test]
fn linear_share_uses_the_elapsed_ratio() {
    let slot = DistributionType::LinearVesting {
        percentage: ONE,
        start_time: 100,
        end_time: 400,
        cliff_duration: None,
    };
    assert_eq!(vested_amount(&slot, 1000, 200), 333);
    assert_eq!(vested_amount(&slot, 1000, 99), 0);
    assert_eq!(vested_amount(&slot, 1000, 400), 1000);
    assert_eq!(vested_amount(&slot, u128::MAX, 250), u128::MAX / 2);
}

#[test]
fn claimable_and_partition_by_hand() {
    let slots = mixed();
    let prior = vec![
        SlotClaim { amount: 100, last_timestamp: 5 },
        SlotClaim { amount: 0, last_timestamp: 0 },
    ];
    let (news, total) = claimable(&slots, 1000, NOW + 55, &prior);
    assert_eq!(news, vec![400, 250]);
    assert_eq!(total, 650);
    let (takes, rest) = partition(&slots, &news, 450);
    assert_eq!(takes, vec![400, 50]);
    assert_eq!(rest, 0);
}
