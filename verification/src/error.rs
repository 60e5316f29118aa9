//! Errors surfaced by the ledger and the distribution engine.

use vstd::prelude::*;

verus! {

/// Every failure of an operation on the contract state. Each error aborts the
/// call that raised it; the state is left exactly as it was.
#[derive(Debug, Clone, Copy, PartialEq, Eq, Structural)]
pub enum ContractError {
    /// A deposit was reported by an identity other than the configured
    /// token contract; the report is not trusted.
    InvalidWtokenAddress { address: u64 },
    /// A deposit of zero was reported; a deposit of nothing is not a
    /// valid event.
    ZeroAmountReceived,
    /// A distribution call carried no coin of the distributable
    /// denomination at all.
    NoUsdsimTokensSent,
    /// An arithmetic step would exceed the integer width; nothing wraps.
    Overflow,
    /// A balance query named an account with no recorded entry.
    NotFound,
    /// A distribution was attempted while no account holds a deposit, so
    /// no proportional share is defined; the attached funds are rejected
    /// and stay with the caller.
    NoRecipients,
}

pub type ContractResult<T> = Result<T, ContractError>;

} // verus!
