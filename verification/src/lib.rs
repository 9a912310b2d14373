//! Accounting and allocation core of a pooled-fund vault.
//!
//! The vault tracks the supported tokens, their allocation ratios, the
//! registered yield strategies, a ledger of undeployed ("idle") funds, the
//! depositors' shares, and the administrative role addresses.  Every public
//! operation is specified by a contract and verified; the host environment
//! that persists this state and performs the actual token and strategy calls
//! sits outside the library and drives it with plain values.

pub mod admin;
pub mod errors;
pub mod models;
pub mod ops;
pub mod shares;
pub mod slot_map;
pub mod storage;

pub use errors::ContractError;
pub use models::{Address, StrategyParams};
pub use ops::WithdrawPlan;
pub use storage::Vault;
