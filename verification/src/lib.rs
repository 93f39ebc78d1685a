//! A per-client ledger over a stream of transaction events (deposits,
//! withdrawals and the dispute lifecycle), with exact decimal balances.
//!
//! [`amount`] holds the exact fixed-scale decimal type, [`transaction`]
//! the event model, [`transaction_engine`] the account state machine
//! and the engine that routes events to accounts, and [`laws`] the
//! proved guarantees of whole runs.

pub mod amount;
pub mod laws;
pub mod transaction;
pub mod transaction_engine;

pub use amount::Amount;
pub use transaction::Transaction;
pub use transaction_engine::TransactionEngine;
