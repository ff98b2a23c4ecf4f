//! Per-client settlement ledger for a stream of deposits, withdrawals,
//! disputes, resolves and chargebacks.
pub mod command;
pub mod compute;
pub mod laws;
pub mod ledgers;
pub mod reader;
pub mod text;

pub use command::{Amount, ClientId, Tx, TxCommand, TxId};
pub use compute::{DisputeRecord, LedgerState, Posting, TxCompute};
