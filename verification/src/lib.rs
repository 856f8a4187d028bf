//! A ledger-and-ticketing engine: accounts hold escrow balances, organisers
//! create capacity-limited events, guests spend balance on tickets, and
//! organisers run an on-chain challenge-response protocol to verify a ticket
//! holder before admitting them.
//!
//! Every operation is a plain function of an explicit [`state::State`]
//! handle; the command-dispatch shell, wire encoding and the host ledger's
//! funds transfer live outside this crate.

pub mod account;
pub mod codec;
pub mod contract;
pub mod crypto;
pub mod error;
pub mod hexnum;
pub mod ledger;
pub mod msg;
pub mod state;
pub mod store;

pub use account::AccountId;
pub use error::ContractError;
