use claimdrop::claim::claim;
use claimdrop::commands::{
    add_allocations, blacklist_address, manage_authorized_wallets, manage_campaign, sweep,
};
use claimdrop::ledger::Claimdrop;
use claimdrop::types::{
    BankSend, CampaignAction, CampaignFault, CampaignParams, Coin, ContractError,
    DistributionType, ONE,
};

const NOW: u64 = 1_571_797_419;
const DAY: u64 = 86_400;

fn coin(amount: u128, denom: &str) -> Coin {
    Coin { denom: denom.to_string(), amount }
}

fn params(
    name: &str,
    description: &str,
    reward: Coin,
    slots: Vec<DistributionType>,
    start_time: u64,
    end_time: u64,
) -> CampaignParams {
    CampaignParams {
        name: name.to_string(),
        description: description.to_string(),
        ty: "airdrop".to_string(),
        total_reward: reward,
        distribution_type: slots,
        start_time,
        end_time,
    }
}

fn create(state: &mut Claimdrop, sender: &str, p: CampaignParams) -> Result<Vec<BankSend>, ContractError> {
    manage_campaign(
        state,
        NOW,
        &sender.to_string(),
        &vec![],
        CampaignAction::CreateCampaign { params: p },
        0,
    )
}

fn claimed_total(state: &Claimdrop, who: &str) -> u128 {
    match state.claim_record(&who.to_string()) {
        Some(rec) => rec.iter().map(|c| c.amount).sum(),
        None => 0,
    }
}

fn lump_campaign(state: &mut Claimdrop, owner: &str) {
    create(
        state,
        owner,
        params(
            "Test Campaign",
            "Test campaign",
            coin(10_000_000, "uom"),
            vec![DistributionType::LumpSum { percentage: ONE, start_time: NOW + DAY }],
            NOW + DAY,
            NOW + DAY * 7,
        ),
    )
    .unwrap();
}

fn owner_message(err: ContractError) -> String {
    match err {
        ContractError::CampaignError { reason } => reason.message(),
        other => panic!("Wrong error type, should return ContractError::CampaignError: {other:?}"),
    }
}

#[test]
fn test_invalid_distribution_duration_fails() {
    let mut state = Claimdrop::new(Some("alice".to_string()));
    let err = create(
        &mut state,
        "alice",
        params(
            "Invalid Distribution Test",
            "Testing invalid distribution duration",
            coin(100_000, "uom"),
            vec![DistributionType::LinearVesting {
                percentage: ONE,
                start_time: NOW + 100,
                end_time: NOW + 50,
                cliff_duration: None,
            }],
            NOW + 1,
            NOW + 172_800,
        ),
    )
    .unwrap_err();
    match err {
        ContractError::InvalidDistributionTimes { start_time, end_time } => {
            assert!(end_time < start_time);
        }
        _ => panic!("Expected InvalidDistributionTimes error, got: {err:?}"),
    }
}

#[test]
fn test_zero_distribution_duration_fails() {
    let mut state = Claimdrop::new(Some("alice".to_string()));
    let err = create(
        &mut state,
        "alice",
        params(
            "Zero Duration Test",
            "Testing zero distribution duration",
            coin(100_000, "uom"),
            vec![DistributionType::LinearVesting {
                percentage: ONE,
                start_time: NOW + 100,
                end_time: NOW + 100,
                cliff_duration: None,
            }],
            NOW + 1,
            NOW + 172_800,
        ),
    )
    .unwrap_err();
    match err {
        ContractError::InvalidDistributionTimes { start_time, end_time } => {
            assert_eq!(start_time, end_time);
        }
        _ => panic!("Expected InvalidDistributionTimes error, got: {err:?}"),
    }
}

#[test]
fn test_claim_before_distribution_start_optimized_early_return() {
    let mut state = Claimdrop::new(Some("alice".to_string()));
    create(
        &mut state,
        "alice",
        params(
            "Future Distribution Test",
            "Testing claims before distribution starts",
            coin(100_000, "uom"),
            vec![DistributionType::LinearVesting {
                percentage: ONE,
                start_time: NOW + 1000,
                end_time: NOW + 2000,
                cliff_duration: None,
            }],
            NOW + 1,
            NOW + 172_800,
        ),
    )
    .unwrap();
    let balance: u128 = 100_000;
    add_allocations(&mut state, NOW, &"alice".to_string(), vec![("bob".to_string(), 1000)]).unwrap();
    let sent = claim(&mut state, NOW + DAY, &"bob".to_string(), None, None, balance).unwrap();
    assert_eq!(sent.amount.amount, 1000);
    assert_eq!(claimed_total(&state, "bob"), 1000);
}

#[test]
fn test_rounding_error_compensation_invariant() {
    let mut state = Claimdrop::new(Some("alice".to_string()));
    create(
        &mut state,
        "alice",
        params(
            "Rounding Test",
            "Testing rounding compensation",
            coin(100_000, "uom"),
            vec![DistributionType::LinearVesting {
                percentage: ONE,
                start_time: NOW + 10,
                end_time: NOW + 100,
                cliff_duration: None,
            }],
            NOW + 1,
            NOW + 172_800,
        ),
    )
    .unwrap();
    add_allocations(&mut state, NOW, &"alice".to_string(), vec![("bob".to_string(), 1000)]).unwrap();
    claim(&mut state, NOW + 7 * DAY, &"bob".to_string(), None, None, 100_000).unwrap();
    assert_eq!(claimed_total(&state, "bob"), 1000);
}

#[test]
fn test_distribution_validation_and_early_return() {
    let mut state = Claimdrop::new(Some("alice".to_string()));
    create(
        &mut state,
        "alice",
        params(
            "Mixed Distribution Test",
            "Testing mixed distribution",
            coin(100_000, "uom"),
            vec![
                DistributionType::LumpSum { percentage: ONE / 2, start_time: NOW + 10 },
                DistributionType::LinearVesting {
                    percentage: ONE / 2,
                    start_time: NOW + 10,
                    end_time: NOW + 100,
                    cliff_duration: None,
                },
            ],
            NOW + 1,
            NOW + 172_800,
        ),
    )
    .unwrap();
    add_allocations(&mut state, NOW, &"alice".to_string(), vec![("bob".to_string(), 1000)]).unwrap();
    let bob = "bob".to_string();
    claim(&mut state, NOW + DAY, &bob, None, Some(300), 100_000).unwrap();
    assert_eq!(claimed_total(&state, "bob"), 300);
    claim(&mut state, NOW + DAY, &bob, None, Some(200), 99_700).unwrap();
    assert_eq!(claimed_total(&state, "bob"), 500);
}

fn sweep_campaign(state: &mut Claimdrop) {
    create(
        state,
        "alice",
        params(
            "Test Campaign",
            "Test campaign for sweep testing",
            coin(100_000, "uom"),
            vec![DistributionType::LumpSum { percentage: ONE, start_time: NOW + 1 }],
            NOW + 1,
            NOW + 172_800,
        ),
    )
    .unwrap();
}

#[test]
fn test_sweep_non_reward_tokens() {
    let mut state = Claimdrop::new(Some("alice".to_string()));
    sweep_campaign(&mut state);
    let alice = "alice".to_string();
    let mut alice_usdc: u128 = 1_000_000_000 - 50_000;
    let mut contract_usdc: u128 = 50_000;
    let mut alice_test: u128 = 1_000_000_000 - 30_000;
    let mut contract_test: u128 = 30_000;
    assert_eq!(alice_usdc, 999_950_000);

    let send = sweep(&state, &alice, "uusdc".to_string(), None, contract_usdc).unwrap();
    assert_eq!(send.to_address, alice);
    assert_eq!(send.amount, coin(50_000, "uusdc"));
    alice_usdc += send.amount.amount;
    contract_usdc -= send.amount.amount;
    assert_eq!(alice_usdc, 1_000_000_000);
    assert_eq!(contract_usdc, 0);

    let send = sweep(&state, &alice, "utest".to_string(), Some(20_000), contract_test).unwrap();
    alice_test += send.amount.amount;
    contract_test -= send.amount.amount;
    assert_eq!(alice_test, 999_990_000);
    assert_eq!(contract_test, 10_000);
}

#[test]
fn test_sweep_cannot_sweep_reward_denom() {
    let mut state = Claimdrop::new(Some("alice".to_string()));
    sweep_campaign(&mut state);
    let res = sweep(&state, &"alice".to_string(), "uom".to_string(), None, 100_000);
    assert!(res.is_err(), "Should fail when trying to sweep reward denom");
}

#[test]
fn test_sweep_only_owner_can_sweep() {
    let state = Claimdrop::new(Some("alice".to_string()));
    let res = sweep(&state, &"bob".to_string(), "uusdc".to_string(), None, 50_000);
    assert!(res.is_err(), "Non-owner should not be able to sweep");
    sweep(&state, &"alice".to_string(), "uusdc".to_string(), None, 50_000).unwrap();
}

#[test]
fn test_sweep_with_no_balance() {
    let state = Claimdrop::new(Some("alice".to_string()));
    let res = sweep(&state, &"alice".to_string(), "unonexistent".to_string(), None, 0);
    assert!(res.is_err(), "Should fail when trying to sweep non-existent tokens");
}

#[test]
fn test_sweep_amount_exceeds_balance() {
    let state = Claimdrop::new(Some("alice".to_string()));
    let res = sweep(&state, &"alice".to_string(), "uusdc".to_string(), Some(100_000), 50_000);
    assert!(res.is_err(), "Should fail when trying to sweep more than available");
}

#[test]
fn test_sweep_after_campaign_closed() {
    let mut state = Claimdrop::new(Some("alice".to_string()));
    sweep_campaign(&mut state);
    let alice = "alice".to_string();
    let refund = manage_campaign(&mut state, NOW + DAY, &alice, &vec![], CampaignAction::CloseCampaign, 100_000)
        .unwrap();
    assert_eq!(refund, vec![BankSend { to_address: alice.clone(), amount: coin(100_000, "uom") }]);
    sweep(&state, &alice, "uusdc".to_string(), None, 50_000).unwrap();
    let res = sweep(&state, &alice, "uom".to_string(), None, 0);
    assert!(res.is_err(), "Should fail when trying to sweep reward denom even after campaign closed");
}

#[test]
fn test_sweep_no_campaign_exists() {
    let state = Claimdrop::new(Some("alice".to_string()));
    let alice = "alice".to_string();
    let mut alice_usdc: u128 = 1_000_000_000 - 50_000;
    let mut alice_uom: u128 = 1_000_000_000 - 30_000;
    let send = sweep(&state, &alice, "uusdc".to_string(), None, 50_000).unwrap();
    alice_usdc += send.amount.amount;
    let send = sweep(&state, &alice, "uom".to_string(), None, 30_000).unwrap();
    alice_uom += send.amount.amount;
    assert_eq!(alice_usdc, 1_000_000_000);
    assert_eq!(alice_uom, 1_000_000_000);
}

#[test]
fn test_cannot_blacklist_owner() {
    let owner = "owner".to_string();
    let authorized_wallet = "authorized".to_string();
    let other_user = "other".to_string();
    let mut state = Claimdrop::new(Some(owner.clone()));
    lump_campaign(&mut state, "owner");
    manage_authorized_wallets(&mut state, &owner, &vec![authorized_wallet.clone()], true).unwrap();

    let err = blacklist_address(&mut state, &authorized_wallet, owner.clone(), true).unwrap_err();
    assert_eq!(owner_message(err), "Cannot blacklist the campaign owner");
    let err = blacklist_address(&mut state, &owner, owner.clone(), true).unwrap_err();
    assert_eq!(owner_message(err), "Cannot blacklist the campaign owner");
    assert!(!state.is_blacklisted(&owner), "Owner should not be blacklisted");

    blacklist_address(&mut state, &authorized_wallet, other_user.clone(), true).unwrap();
    assert!(state.is_blacklisted(&other_user), "Other user should be blacklisted");
}

#[test]
fn test_owner_can_have_allocations_but_cannot_be_blacklisted() {
    let owner = "owner".to_string();
    let authorized_wallet = "authorized".to_string();
    let user1 = "user1".to_string();
    let mut state = Claimdrop::new(Some(owner.clone()));
    lump_campaign(&mut state, "owner");
    manage_authorized_wallets(&mut state, &owner, &vec![authorized_wallet.clone()], true).unwrap();
    add_allocations(&mut state, NOW, &authorized_wallet, vec![(owner.clone(), 1000)]).unwrap();
    add_allocations(&mut state, NOW, &authorized_wallet, vec![(user1.clone(), 2000)]).unwrap();
    assert_eq!(state.allocation(&owner), Some(1000));
    assert_eq!(state.allocation(&user1), Some(2000));
    let err = blacklist_address(&mut state, &authorized_wallet, owner.clone(), true).unwrap_err();
    assert_eq!(owner_message(err), "Cannot blacklist the campaign owner");
}

#[test]
fn test_owner_protection_ensures_owner_can_claim() {
    let owner = "owner".to_string();
    let authorized_wallet = "authorized".to_string();
    let user1 = "user1".to_string();
    let user2 = "user2".to_string();
    let mut state = Claimdrop::new(Some(owner.clone()));
    lump_campaign(&mut state, "owner");
    manage_authorized_wallets(&mut state, &owner, &vec![authorized_wallet.clone()], true).unwrap();
    add_allocations(
        &mut state,
        NOW,
        &authorized_wallet,
        vec![(user1.clone(), 1000), (owner.clone(), 2000), (user2.clone(), 1500)],
    )
    .unwrap();
    assert_eq!(state.allocation(&user1), Some(1000));
    assert_eq!(state.allocation(&owner), Some(2000));
    assert_eq!(state.allocation(&user2), Some(1500));
    let err = blacklist_address(&mut state, &authorized_wallet, owner.clone(), true).unwrap_err();
    assert_eq!(owner_message(err), "Cannot blacklist the campaign owner");
    blacklist_address(&mut state, &authorized_wallet, user1.clone(), true).unwrap();
    assert!(state.is_blacklisted(&user1));

    let sent = claim(&mut state, NOW + DAY, &owner, None, None, 10_000_000).unwrap();
    assert_eq!(sent.amount, coin(2000, "uom"));
}

#[test]
fn test_owner_protection_with_multiple_authorized_wallets() {
    let owner = "owner".to_string();
    let wallet1 = "authorized1".to_string();
    let wallet2 = "authorized2".to_string();
    let user = "user".to_string();
    let mut state = Claimdrop::new(Some(owner.clone()));
    lump_campaign(&mut state, "owner");
    manage_authorized_wallets(&mut state, &owner, &vec![wallet1.clone(), wallet2.clone()], true).unwrap();
    let err = blacklist_address(&mut state, &wallet1, owner.clone(), true).unwrap_err();
    assert_eq!(owner_message(err), "Cannot blacklist the campaign owner");
    let err = blacklist_address(&mut state, &wallet2, owner.clone(), true).unwrap_err();
    assert_eq!(owner_message(err), "Cannot blacklist the campaign owner");
    add_allocations(&mut state, NOW, &wallet1, vec![(owner.clone(), 1000)]).unwrap();
    assert!(!state.is_blacklisted(&owner), "Owner should not be blacklisted");
    assert_eq!(state.allocation(&owner), Some(1000));
    blacklist_address(&mut state, &wallet1, user.clone(), true).unwrap();
    add_allocations(&mut state, NOW, &wallet2, vec![(user.clone(), 3000)]).unwrap();
    assert_eq!(state.allocation(&user), Some(3000));
}
