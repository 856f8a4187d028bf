//! The plain values that cross the contract boundary.
//!
//! The dispatch shell hands every operation plain values — amounts, ids,
//! hex strings, key material — and receives plain values back. The wire
//! encoding of requests and responses is the shell's business, not the
//! contract's.

use vstd::prelude::*;

use crate::account::AccountId;

verus! {

/// The (empty) instantiation request.
#[derive(Clone, Copy, Debug, PartialEq, Eq, Structural)]
pub struct InstantiateMsg {}

/// One coin attached to a deposit: a denomination and an amount.
#[derive(Debug)]
pub struct Coin {
    pub denom: String,
    pub amount: u128,
}

/// The funds-transfer instruction a withdrawal emits. The contract never
/// moves real currency; the host ledger executes this.
#[derive(Debug)]
pub struct Transfer {
    pub to: AccountId,
    pub amount: u128,
}

/// Answer to the sold-out query.
#[derive(Clone, Copy, Debug, PartialEq, Eq, Structural)]
pub struct SoldOutResponse {
    pub sold_out: bool,
}

/// Answer to the balance query.
#[derive(Clone, Copy, Debug, PartialEq, Eq, Structural)]
pub struct BalanceResponse {
    pub balance: u128,
}

/// Answer to the per-organiser events query: the organiser's event ids and,
/// aligned with them, how many tickets each event still has.
#[derive(Debug)]
pub struct EventsResponse {
    pub events: Vec<u128>,
    pub tickets_left: Vec<u128>,
}

/// Answer to the per-guest tickets query: the guest's ticket ids and,
/// aligned with them, each ticket's event id and state code.
#[derive(Debug)]
pub struct TicketsResponse {
    pub tickets: Vec<u128>,
    pub events: Vec<u128>,
    pub states: Vec<u8>,
}

} // verus!
