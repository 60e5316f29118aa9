//! A deposit ledger with a proportional distribution engine.
//!
//! The library tracks per-account balances of a deposited token and, on each
//! distribution round, splits an attached lump sum of a second asset among
//! the depositors in proportion to their recorded balance, carrying the
//! undistributed remainder into the next round.

pub mod contract;
pub mod error;
pub mod msg;
pub mod state;

pub use contract::instantiate;
pub use error::ContractError;
pub use error::ContractResult;
pub use msg::ExecuteMsg;
pub use msg::InstantiateMsg;
pub use msg::QueryAnswer;
pub use msg::QueryMsg;
pub use state::LedgerEntry;
pub use state::Payout;
pub use state::RewardState;
pub use state::UsdsimBalance;
pub use state::WtokenBalance;
