//! The externally visible behaviour of the contract operations.

use event_ticketing::account::AccountId;
use event_ticketing::contract::{
    try_create_event, try_deposit, try_withdraw,
};
use event_ticketing::error::ContractError;
use event_ticketing::msg::Coin;
use event_ticketing::state::State;

fn account(name: &str) -> AccountId {
    AccountId::new(name.as_bytes().to_vec())
}

fn coins(amount: u128, denom: &str) -> Vec<Coin> {
    vec![Coin { denom: denom.to_string(), amount }]
}

fn instantiate_test() -> (AccountId, State) {
    let owner = account("owner");
    let state = State::instantiate(owner.clone());
    (owner, state)
}

#[test]
fn instantiate_proper() {
    let (owner, state) = instantiate_test();

    // Check if owner is correct
    assert!(state.config.get_owner().same_as(&owner));
}

#[test]
fn deposit_proper() {
    // Instantiate contract
    let (owner, mut state) = instantiate_test();

    // Deposit tokens
    try_deposit(&mut state, &owner, &coins(1000, "uscrt")).unwrap();

    // Check if balance increased
    let owner_balance = state.balances.read_account_balance(&owner);
    assert_eq!(owner_balance, 1000);
}

#[test]
fn withdraw_proper() {
    // Instantiate contract
    let (owner, mut state) = instantiate_test();

    // Deposit tokens
    try_deposit(&mut state, &owner, &coins(1000, "uscrt")).unwrap();

    // Withdraw tokens
    let transfer = try_withdraw(&mut state, &owner, 500).unwrap();
    assert!(transfer.to.same_as(&owner));
    assert_eq!(transfer.amount, 500);

    // Check if balance decreased
    let owner_balance = state.balances.read_account_balance(&owner);
    assert_eq!(owner_balance, 500);
}

#[test]
fn create_event_proper() {
    // Instantiate contract
    let (owner, mut state) = instantiate_test();

    // Create event
    let price: u128 = 500;
    let max_tickets: u128 = 500;
    let entropy = "986192837319283719";
    let event_id = try_create_event(&mut state, &owner, price, max_tickets, entropy).unwrap();

    // Check proper event ID emitted
    assert_eq!(event_id, 1);

    // Check in storage
    let event = state.events.may_load_event(event_id).unwrap();
    assert_eq!(event.get_id(), event_id);
    assert_eq!(event.get_price(), price);
    assert_eq!(event.get_max_tickets(), max_tickets);
    assert_eq!(event.get_tickets_sold(), 0);
    assert!(event.get_organiser().same_as(&owner));
    assert_eq!(event.get_entropy(), 0x986192837319283719);

    // Check in organisers events
    let organisers_events = state.organisers_events.load_events(&owner);
    assert_eq!(*organisers_events.get(0).unwrap(), event_id);

    // Create event
    let entropy = "12761237192837192";
    let event_id = try_create_event(&mut state, &owner, price, max_tickets, entropy).unwrap();

    // Check proper event ID emitted
    assert_eq!(event_id, 2);

    let organisers_events = state.organisers_events.load_events(&owner);
    assert_eq!(*organisers_events.get(1).unwrap(), 2);
}

#[test]
fn deposit_invalid_token() {
    // Instantiate contract
    let (owner, mut state) = instantiate_test();

    // Deposit token
    let deposit_resp = try_deposit(&mut state, &owner, &coins(1000, "earth"));

    // Should be error
    assert_eq!(deposit_resp.is_err(), true);
    assert_eq!(deposit_resp, Err(ContractError::UnsupportedToken));
}

#[test]
fn deposit_no_funds() {
    // Instantiate contract
    let (owner, mut state) = instantiate_test();

    // Deposit token
    let deposit_resp = try_deposit(&mut state, &owner, &coins(0, "uscrt"));

    // Should be error
    assert_eq!(deposit_resp.is_err(), true);
    assert_eq!(deposit_resp, Err(ContractError::NoFunds));
}

#[test]
fn withdraw_not_enough_funds() {
    // Instantiate contract
    let (owner, mut state) = instantiate_test();

    // Deposit token
    try_deposit(&mut state, &owner, &coins(1000, "uscrt")).unwrap();

    // Withdraw token
    let withdraw_resp = try_withdraw(&mut state, &owner, 1500);

    // Should be error
    assert!(withdraw_resp.is_err());
    assert!(matches!(
        withdraw_resp,
        Err(ContractError::InsufficientFunds { balance: 1000, required: 1500 })
    ));

    // Balance unchanged
    assert_eq!(state.balances.read_account_balance(&owner), 1000);
}

#[test]
fn random_shit() {
    let num: u128 = 69;
    let bytes = event_ticketing::codec::u128_to_be_bytes(num);
    let mut expected = vec![0u8; 15];
    expected.push(69);
    assert_eq!(bytes, expected);
}

#[test]
fn deposit_then_withdraw_restores_balance() {
    let (owner, mut state) = instantiate_test();
    try_deposit(&mut state, &owner, &coins(100, "uscrt")).unwrap();

    try_deposit(&mut state, &owner, &coins(777, "uscrt")).unwrap();
    try_withdraw(&mut state, &owner, 777).unwrap();

    assert_eq!(state.balances.read_account_balance(&owner), 100);
}

#[test]
fn ledger_tracks_net_of_deposits_and_withdraws() {
    let (owner, mut state) = instantiate_test();
    let other = account("bystander");
    try_deposit(&mut state, &other, &coins(41, "uscrt")).unwrap();

    try_deposit(&mut state, &owner, &coins(100, "uscrt")).unwrap();
    try_deposit(&mut state, &owner, &coins(200, "uscrt")).unwrap();
    try_withdraw(&mut state, &owner, 50).unwrap();
    try_deposit(&mut state, &owner, &coins(7, "uscrt")).unwrap();
    try_withdraw(&mut state, &owner, 250).unwrap();

    // 100 + 200 - 50 + 7 - 250
    assert_eq!(state.balances.read_account_balance(&owner), 7);
    // No other account moved.
    assert_eq!(state.balances.read_account_balance(&other), 41);
}

#[test]
fn deposit_reads_last_coin_only() {
    let (owner, mut state) = instantiate_test();
    let funds = vec![
        Coin { denom: "uscrt".to_string(), amount: 5 },
        Coin { denom: "uscrt".to_string(), amount: 9 },
    ];
    try_deposit(&mut state, &owner, &funds).unwrap();
    assert_eq!(state.balances.read_account_balance(&owner), 9);
}

#[test]
fn event_ids_strictly_increase_across_organisers() {
    let (owner, mut state) = instantiate_test();
    let second = account("second_organiser");

    let a = try_create_event(&mut state, &owner, 10, 10, "aa").unwrap();
    let b = try_create_event(&mut state, &second, 10, 10, "bb").unwrap();
    let c = try_create_event(&mut state, &owner, 10, 10, "cc").unwrap();

    assert_eq!((a, b, c), (1, 2, 3));
    assert!(a < b && b < c);
    // Each organiser's index lists only its own events, in order.
    assert_eq!(state.organisers_events.load_events(&owner), vec![1, 3]);
    assert_eq!(state.organisers_events.load_events(&second), vec![2]);
}

#[test]
fn create_event_rejects_malformed_entropy() {
    let (owner, mut state) = instantiate_test();
    assert_eq!(
        try_create_event(&mut state, &owner, 10, 10, "not hex!"),
        Err(ContractError::InvalidEntropyHex)
    );
    assert_eq!(
        try_create_event(&mut state, &owner, 10, 10, ""),
        Err(ContractError::InvalidEntropyHex)
    );
    // 2^128 no longer fits in 128 bits.
    assert_eq!(
        try_create_event(&mut state, &owner, 10, 10, "100000000000000000000000000000000"),
        Err(ContractError::InvalidEntropyHex)
    );
    // The largest value that fits is accepted, upper case included.
    let id = try_create_event(&mut state, &owner, 10, 10, "FFFFffffFFFFffffFFFFffffFFFFffff")
        .unwrap();
    assert_eq!(
        state.events.may_load_event(id).unwrap().get_entropy(),
        u128::MAX
    );
}
