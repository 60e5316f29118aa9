//! The messages the contract accepts and the answers its queries return.

use vstd::prelude::*;

use crate::state::UsdsimBalance;
use crate::state::WtokenBalance;

verus! {

/// The one-time setup message: it fixes the identity of the token contract
/// whose deposit reports will be trusted.
#[derive(Debug, Clone, Copy, PartialEq, Eq, Structural)]
pub struct InstantiateMsg {
    pub wtoken_contract: u64,
}

/// A state-changing call.
#[derive(Debug, Clone, Copy, PartialEq, Eq, Structural)]
pub enum ExecuteMsg {
    /// A deposit report forwarded by the token contract: `sender` deposited
    /// `amount` of the token.
    Receive { sender: u64, amount: u128 },
    /// A distribution round, funded by the distributable asset attached to
    /// the call.
    ReceiveUsdsim {},
}

/// A read-only query.
#[derive(Debug, Clone, Copy, PartialEq, Eq, Structural)]
pub enum QueryMsg {
    /// The recorded deposit balance of one account.
    WtokenBalance { address: u64 },
    /// The running total of all recorded deposit balances.
    WtokenTotalBalance {},
    /// The remainder retained by the most recent distribution round.
    RemainingUsdsim {},
}

/// The answer to a query.
#[derive(Debug, Clone, Copy, PartialEq, Eq, Structural)]
pub enum QueryAnswer {
    WtokenBalance(WtokenBalance),
    UsdsimBalance(UsdsimBalance),
}

} // verus!
