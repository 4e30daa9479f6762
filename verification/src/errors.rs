use vstd::prelude::*;

verus! {

/// Error kinds surfaced by failing operations. Every failure aborts the
/// whole operation and leaves the state unchanged; the kind tells the
/// caller which condition to correct before retrying.
#[derive(Clone, Copy, PartialEq, Eq, Structural, Debug)]
pub enum ContractError {
    /// The account was already set up.
    AlreadyInitialized,
    /// The account was not set up yet.
    NotInitialized,
    /// The account is barred from the operation.
    AccountRestricted,
    /// The caller lacks the role or identity the operation demands.
    NotAuthorized,
    /// The token is not tracked by the account.
    TokenNotFound,
    /// The requested amount exceeds the available balance.
    InsufficientBalance,
    /// The address already maps to a merchant record.
    AlreadyRegistered,
    /// No merchant record exists under the given id.
    MerchantNotFound,
    /// No invoice exists under the given id.
    InvoiceNotFound,
    /// A non-positive amount where a positive one is required.
    InvalidAmount,
    /// An invoice state transition that the lifecycle forbids.
    InvalidInvoiceStatus,
    /// The scheduled fee exceeds the invoice amount.
    InvalidFeeConfiguration,
}

} // verus!
