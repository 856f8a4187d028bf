//! The error taxonomy of the contract.
//!
//! Every externally visible operation is all-or-nothing: each error below is
//! returned before any state is written, with one exception — a
//! `SecretMismatch` during guest verification is non-fatal and leaves the
//! ticket in its `Validating` state so the caller may retry.

use vstd::prelude::*;

verus! {

/// Why a contract operation was rejected.
///
/// Validation errors: `UnsupportedToken`, `NoFunds`, `InvalidEntropyHex`,
/// `InvalidSecretHex`, `InvalidPublicKey`. Not-found errors: `EventNotFound`,
/// `TicketNotFound`. Authorization error: `NotOrganiser`. State errors:
/// `EventSoldOut`, `DuplicateTicket`, `TicketAlreadyUsed`,
/// `ValidationNotStarted`, `SecretMismatch`. Funds error:
/// `InsufficientFunds`, which carries both the actual balance and the
/// required amount.
#[derive(Clone, Copy, Debug, PartialEq, Eq, Structural)]
pub enum ContractError {
    /// A deposit carried a coin of a denomination other than `uscrt`.
    UnsupportedToken,
    /// A deposit carried no funds at all.
    NoFunds,
    /// The entropy argument is not a hex string denoting a 128-bit integer.
    InvalidEntropyHex,
    /// The claimed secret is not a hex string denoting a 128-bit integer.
    InvalidSecretHex,
    /// The ticket holder's public-key material could not be used to encrypt.
    InvalidPublicKey,
    /// No event is stored under the given id.
    EventNotFound,
    /// No ticket is stored under the given id.
    TicketNotFound,
    /// The event has sold as many tickets as its capacity allows.
    EventSoldOut,
    /// The caller already holds a ticket for this event.
    DuplicateTicket,
    /// The ticket has already been used for admission.
    TicketAlreadyUsed,
    /// Guest verification was attempted before the organiser started it.
    ValidationNotStarted,
    /// The claimed secret does not match the stored one; retryable.
    SecretMismatch,
    /// The caller is not the organiser of the ticket's event.
    NotOrganiser,
    /// The account's balance does not cover the debit.
    InsufficientFunds { balance: u128, required: u128 },
    /// A persisted record does not have the length its encoding demands.
    CorruptedData,
}

} // verus!
