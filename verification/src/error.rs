//! The failure taxonomy of the ledger. Every failure is synchronous and
//! mutually exclusive with any state change: a call either commits its whole
//! effect or reports one of these and leaves the store as it was.

use vstd::prelude::*;

verus! {

/// Why a call was refused.
#[derive(Clone, Copy, PartialEq, Eq, Structural, Debug)]
pub enum ContractError {
    /// The caller lacks the required permission. Also reported for the
    /// legacy overlay's "already borrowed" and "not the borrower" cases.
    Unauthorized,
    /// A mint collided with an existing token identifier.
    Claimed,
    /// The referenced token does not exist.
    TokenNotFound,
    /// A grant carried an expiration that had already elapsed. Reserved:
    /// no path raises it today.
    Expired,
    /// The referenced approval does not exist (or is expired and was
    /// filtered out).
    ApprovalNotFound,
    /// The referenced operator grant does not exist.
    OperatorNotFound,
}

} // verus!
