//! Accounting core of a merchant payments platform.
//!
//! The crate holds the ledger state machine: role-gated access control, a
//! merchant registry, an invoice lifecycle (pending, paid, cancelled) with
//! per-token fee deduction at settlement, and per-account token balances
//! with guarded withdrawal.
//!
//! The host environment — caller authentication, the durable store, the
//! clock, the token-transfer primitive and the event sink — is a
//! collaborator outside this crate. Operations here take the authenticated
//! caller and the current timestamp as arguments and hand back the token
//! transfer the host must perform; the host commits the new state only if
//! that transfer succeeds.

pub mod account;
pub mod errors;
pub mod ledger;
pub mod types;
