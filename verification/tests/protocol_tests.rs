//! The purchase and challenge-response verification protocol, end to end,
//! with real RSA key material.

use rand_chacha::rand_core::SeedableRng;
use rand_chacha::ChaCha20Rng;
use rsa::pkcs8::{EncodePublicKey, LineEnding};
use rsa::{Pkcs1v15Encrypt, RsaPrivateKey};

use event_ticketing::account::AccountId;
use event_ticketing::contract::{
    query_balance, query_event_sold_out, query_events, query_tickets, try_buy_ticket,
    try_create_event, try_deposit, try_verify_guest, try_verify_ticket,
};
use event_ticketing::error::ContractError;
use event_ticketing::msg::Coin;
use event_ticketing::state::{State, TicketState};

/// The guest's RSA key pair, generated from a fixed seed: small enough to
/// keep the tests fast, and no key material has to be written down.
fn guest_key() -> (RsaPrivateKey, String) {
    let mut rng = ChaCha20Rng::seed_from_u64(7);
    let private_key = RsaPrivateKey::new(&mut rng, 512).unwrap();
    let public_pem = private_key
        .to_public_key()
        .to_public_key_pem(LineEnding::LF)
        .unwrap();
    (private_key, public_pem)
}

fn guest_pub_pem() -> Vec<u8> {
    guest_key().1.into_bytes()
}

fn account(name: &str) -> AccountId {
    AccountId::new(name.as_bytes().to_vec())
}

fn coins(amount: u128, denom: &str) -> Vec<Coin> {
    vec![Coin { denom: denom.to_string(), amount }]
}

/// Organiser with one event (price 50, capacity 500), guest with 1000
/// deposited.
fn event_with_funded_guest() -> (AccountId, AccountId, State, u128) {
    let organiser = account("organiser");
    let guest = account("guest");
    let mut state = State::instantiate(organiser.clone());
    try_deposit(&mut state, &guest, &coins(1000, "uscrt")).unwrap();
    let event_id =
        try_create_event(&mut state, &organiser, 50, 500, "3457263458762").unwrap();
    (organiser, guest, state, event_id)
}

#[test]
fn full_verification_scenario() {
    let (organiser, guest, mut state, event_id) = event_with_funded_guest();
    let (private_key, public_pem) = guest_key();

    // Guest buys a ticket.
    let ticket_id = try_buy_ticket(
        &mut state,
        &guest,
        event_id,
        "1827391824732872934872",
        public_pem.into_bytes(),
    )
    .unwrap();
    assert_eq!(ticket_id, 1);
    assert_eq!(query_balance(&state, &guest).balance, 950);
    assert_eq!(query_balance(&state, &organiser).balance, 50);
    let event = state.events.may_load_event(event_id).unwrap();
    assert_eq!(event.get_tickets_sold(), 1);
    let ticket = state.tickets.may_load_ticket(ticket_id).unwrap();
    assert_eq!(ticket.get_state(), TicketState::Unverified);
    assert_eq!(ticket.secret, 0);

    // Organiser starts verification; a secret is recorded and handed out
    // encrypted under the guest's key.
    let secret_encrypted = try_verify_ticket(&mut state, &organiser, ticket_id).unwrap();
    let ticket = state.tickets.may_load_ticket(ticket_id).unwrap();
    assert_eq!(ticket.get_state(), TicketState::Validating);
    let secret = ticket.secret;
    assert_ne!(secret, 0);

    // Off-chain, the guest decrypts the relayed ciphertext with its private
    // key and recovers exactly the stored secret's big-endian bytes.
    let ciphertext = hex::decode(&secret_encrypted).unwrap();
    let plaintext = private_key.decrypt(Pkcs1v15Encrypt, &ciphertext).unwrap();
    assert_eq!(plaintext, secret.to_be_bytes().to_vec());

    // The guest echoes the secret back; the ticket is used up.
    let secret_hex = format!("{:x}", secret);
    try_verify_guest(&mut state, &organiser, ticket_id, &secret_hex).unwrap();
    let ticket = state.tickets.may_load_ticket(ticket_id).unwrap();
    assert_eq!(ticket.get_state(), TicketState::Used);
    assert_eq!(ticket.secret, 0);
}

#[test]
fn buy_ticket_failures_change_nothing() {
    let (organiser, guest, mut state, event_id) = event_with_funded_guest();
    let pem = guest_pub_pem();
    let pk = || pem.clone();

    // Unknown event.
    assert_eq!(
        try_buy_ticket(&mut state, &guest, 99, "ff", pk()),
        Err(ContractError::EventNotFound)
    );
    // Malformed entropy.
    assert_eq!(
        try_buy_ticket(&mut state, &guest, event_id, "zz", pk()),
        Err(ContractError::InvalidEntropyHex)
    );
    // Too poor: price 5000 exceeds the guest's 1000.
    let dear = try_create_event(&mut state, &organiser, 5000, 10, "ee").unwrap();
    assert_eq!(
        try_buy_ticket(&mut state, &guest, dear, "ff", pk()),
        Err(ContractError::InsufficientFunds { balance: 1000, required: 5000 })
    );
    // Sold out: an event with no capacity at all.
    let full = try_create_event(&mut state, &organiser, 1, 0, "dd").unwrap();
    assert_eq!(
        try_buy_ticket(&mut state, &guest, full, "ff", pk()),
        Err(ContractError::EventSoldOut)
    );
    // A second ticket for the same event.
    try_buy_ticket(&mut state, &guest, event_id, "ff", pk()).unwrap();
    assert_eq!(
        try_buy_ticket(&mut state, &guest, event_id, "ff", pk()),
        Err(ContractError::DuplicateTicket)
    );

    // Through all the failures: one sale, one debit, nothing else.
    assert_eq!(query_balance(&state, &guest).balance, 950);
    assert_eq!(query_balance(&state, &organiser).balance, 50);
    assert_eq!(state.events.may_load_event(event_id).unwrap().get_tickets_sold(), 1);
    assert_eq!(state.config.get_num_tickets(), 1);
}

#[test]
fn verify_guest_needs_started_validation() {
    let (organiser, guest, mut state, event_id) = event_with_funded_guest();
    let ticket_id =
        try_buy_ticket(&mut state, &guest, event_id, "ff", guest_pub_pem()).unwrap();

    // Not started yet.
    assert_eq!(
        try_verify_guest(&mut state, &organiser, ticket_id, "ab"),
        Err(ContractError::ValidationNotStarted)
    );

    try_verify_ticket(&mut state, &organiser, ticket_id).unwrap();
    let secret = state.tickets.may_load_ticket(ticket_id).unwrap().secret;

    // A wrong secret is refused and retryable: the ticket stays Validating.
    let wrong = format!("{:x}", secret ^ 1);
    assert_eq!(
        try_verify_guest(&mut state, &organiser, ticket_id, &wrong),
        Err(ContractError::SecretMismatch)
    );
    let ticket = state.tickets.may_load_ticket(ticket_id).unwrap();
    assert_eq!(ticket.get_state(), TicketState::Validating);
    assert_eq!(ticket.secret, secret);

    // Malformed secret text.
    assert_eq!(
        try_verify_guest(&mut state, &organiser, ticket_id, "not hex"),
        Err(ContractError::InvalidSecretHex)
    );

    // The right secret still works after the failed attempts.
    let right = format!("{:x}", secret);
    try_verify_guest(&mut state, &organiser, ticket_id, &right).unwrap();

    // A used ticket answers both protocol calls with the same refusal.
    assert_eq!(
        try_verify_guest(&mut state, &organiser, ticket_id, &right),
        Err(ContractError::TicketAlreadyUsed)
    );
    assert_eq!(
        try_verify_ticket(&mut state, &organiser, ticket_id),
        Err(ContractError::TicketAlreadyUsed)
    );
}

#[test]
fn verification_is_for_the_organiser_alone() {
    let (organiser, guest, mut state, event_id) = event_with_funded_guest();
    let stranger = account("stranger");
    let ticket_id =
        try_buy_ticket(&mut state, &guest, event_id, "ff", guest_pub_pem()).unwrap();

    // Unverified ticket: strangers and even the guest are refused.
    assert_eq!(
        try_verify_ticket(&mut state, &stranger, ticket_id),
        Err(ContractError::NotOrganiser)
    );
    assert_eq!(
        try_verify_ticket(&mut state, &guest, ticket_id),
        Err(ContractError::NotOrganiser)
    );
    let ticket = state.tickets.may_load_ticket(ticket_id).unwrap();
    assert_eq!(ticket.get_state(), TicketState::Unverified);

    // Validating ticket: same refusals, for both protocol calls.
    try_verify_ticket(&mut state, &organiser, ticket_id).unwrap();
    let secret = format!("{:x}", state.tickets.may_load_ticket(ticket_id).unwrap().secret);
    assert_eq!(
        try_verify_ticket(&mut state, &stranger, ticket_id),
        Err(ContractError::NotOrganiser)
    );
    assert_eq!(
        try_verify_guest(&mut state, &stranger, ticket_id, &secret),
        Err(ContractError::NotOrganiser)
    );
    let ticket = state.tickets.may_load_ticket(ticket_id).unwrap();
    assert_eq!(ticket.get_state(), TicketState::Validating);

    // Unknown tickets are reported as such.
    assert_eq!(
        try_verify_ticket(&mut state, &organiser, 42),
        Err(ContractError::TicketNotFound)
    );
    assert_eq!(
        try_verify_guest(&mut state, &organiser, 42, &secret),
        Err(ContractError::TicketNotFound)
    );
}

#[test]
fn unusable_key_material_fails_cleanly() {
    let (organiser, guest, mut state, event_id) = event_with_funded_guest();
    let ticket_id = try_buy_ticket(
        &mut state,
        &guest,
        event_id,
        "ff",
        b"not a pem key at all".to_vec(),
    )
    .unwrap();

    assert_eq!(
        try_verify_ticket(&mut state, &organiser, ticket_id),
        Err(ContractError::InvalidPublicKey)
    );
    // Nothing was committed: the ticket never started validating.
    let ticket = state.tickets.may_load_ticket(ticket_id).unwrap();
    assert_eq!(ticket.get_state(), TicketState::Unverified);
    assert_eq!(ticket.secret, 0);
}

#[test]
fn restarting_validation_keeps_the_secret() {
    let (organiser, guest, mut state, event_id) = event_with_funded_guest();
    let ticket_id =
        try_buy_ticket(&mut state, &guest, event_id, "ff", guest_pub_pem()).unwrap();

    try_verify_ticket(&mut state, &organiser, ticket_id).unwrap();
    let first = state.tickets.may_load_ticket(ticket_id).unwrap().secret;
    try_verify_ticket(&mut state, &organiser, ticket_id).unwrap();
    let second = state.tickets.may_load_ticket(ticket_id).unwrap().secret;

    // The secret is a function of the event entropy and the ticket id.
    assert_eq!(first, second);
}

#[test]
fn queries_report_events_and_tickets() {
    let (organiser, guest, mut state, event_id) = event_with_funded_guest();

    assert_eq!(query_event_sold_out(&state, event_id).unwrap().sold_out, false);
    assert_eq!(
        query_event_sold_out(&state, 77),
        Err(ContractError::EventNotFound)
    );
    let full = try_create_event(&mut state, &organiser, 1, 0, "dd").unwrap();
    assert_eq!(query_event_sold_out(&state, full).unwrap().sold_out, true);

    let ticket_id =
        try_buy_ticket(&mut state, &guest, event_id, "ff", guest_pub_pem()).unwrap();

    let events = query_events(&state, &organiser);
    assert_eq!(events.events, vec![event_id, full]);
    assert_eq!(events.tickets_left, vec![499, 0]);

    let tickets = query_tickets(&state, &guest);
    assert_eq!(tickets.tickets, vec![ticket_id]);
    assert_eq!(tickets.events, vec![event_id]);
    assert_eq!(tickets.states, vec![0]);

    try_verify_ticket(&mut state, &organiser, ticket_id).unwrap();
    let tickets = query_tickets(&state, &guest);
    assert_eq!(tickets.states, vec![1]);

    // Accounts never seen have empty views and zero balance.
    let nobody = account("nobody");
    assert_eq!(query_events(&state, &nobody).events, Vec::<u128>::new());
    assert_eq!(query_tickets(&state, &nobody).tickets, Vec::<u128>::new());
    assert_eq!(query_balance(&state, &nobody).balance, 0);
}
