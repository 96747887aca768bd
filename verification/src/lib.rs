//! A pooled-liquidity treasury, verified.
//!
//! Liquidity providers deposit a fungible asset into a shared vault and
//! receive proportional claim units; vetted borrowers ("circles") draw
//! time-bounded, interest-accruing loans against the pool; liquidation
//! shortfalls are absorbed first by a dedicated insurance buffer and only
//! then socialized to all claim-holders pro rata.
//!
//! The vault itself is a pure state machine over plain integers: the caller's
//! identity, the current time and the outcome of every asset movement are
//! handed in as arguments, so the whole accounting engine is verified.  A
//! host that embeds the library performs the actual asset transfers and
//! commits or rolls back each operation around them.

mod errors;
mod share_ledger;
mod loan_book;
mod vault;
mod oracle;
mod simulator;

pub use errors::{OracleError, SimulatorError, VaultError};
pub use share_ledger::ShareLedger;
pub use loan_book::{Loan, LoanBook};
pub use vault::KuyayVault;
pub use oracle::{LeverageTier, MemberRecord, RiskOracle};
pub use simulator::CircleSimulator;
