//! The error taxonomy of the ledger core.

use vstd::prelude::*;

verus! {

/// Why an operation of the ledger core was refused.
///
/// Lookup and ownership failures map to a client-facing rejection at the
/// boundary; `TransactionAborted` stands for a multi-row mutation that was
/// refused as a whole (nothing is ever written partially).
#[derive(Clone, Copy, Debug, PartialEq, Eq, Structural)]
pub enum LedgerError {
    /// The username is unknown.
    InvalidCredentials,
    /// A protected operation was attempted without a valid session.
    NotLoggedIn,
    /// No portfolio matches the given name.
    PortfolioNotFound,
    /// No quotation of the caller's own portfolio matches the request.
    PositionNotFound,
    /// A currency symbol or a (base, quote) combination is not registered.
    TradingPairNotFound,
    /// The password does not match the stored credential.
    PasswordMismatch,
    /// A value offered as a quantity or price is not a positive integer.
    InvalidQuantity,
    /// A cookie value is not the canonical encoding of a session token.
    MalformedToken,
    /// A multi-row write was refused as one unit; no row was written.
    TransactionAborted,
}

} // verus!
