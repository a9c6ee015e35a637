//! The typed failures that the transaction engine reports.
//!
//! Every failure is a recoverable value, never a panic: a rejected record
//! leaves all account state unchanged (except for the deliberate protective
//! freeze on a withdrawal dispute) and processing continues with the next
//! record.

use vstd::prelude::*;

verus! {

/// Every way the engine can reject a transaction record.
#[derive(Debug, Clone, Copy, PartialEq, Eq, Structural)]
pub enum TxEngineErrors {
    /// A withdrawal or dispute asks for more funds than the account can cover.
    InsufficientFunds,
    /// A dispute, resolve or chargeback names a transaction id that the
    /// account has never recorded.
    TxDoesNotExist(u32),
    /// A dispute names a transaction that is already under dispute, or one
    /// whose dispute was already closed by a resolve or a chargeback.
    TxAlreadyDisputed(u32),
    /// A deposit or withdrawal reuses a transaction id that the account has
    /// already recorded; the duplicate changes nothing.
    TxExists(u32),
    /// A resolve or chargeback names a transaction that is not currently
    /// under dispute.
    TxNotDisputed(u32),
    /// A deposit or withdrawal arrived without a usable amount: the amount is
    /// missing or negative.
    InvalidInput,
    /// The account is frozen; every further record is rejected.
    ClientAccountLocked,
    /// A withdrawal cannot be disputed; the account is frozen protectively.
    WithdrawDisputeError,
    /// A statement was requested for an account that was never referenced.
    AccountNotFound,
    /// A failure outside the engine's own rules.
    Unknown,
}

} // verus!
