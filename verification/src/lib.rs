//! A ledger that ingests a stream of client account transactions (deposits,
//! withdrawals, disputes, resolutions, chargebacks) and produces a per-client
//! account summary (available, held, total funds, locked flag) as CSV text.
//!
//! Monetary amounts are fixed-point decimals held in integers as a count of
//! ten-thousandths, so that every arithmetic step is exact.

pub mod csv_out;
pub mod digits;
pub mod fnv_map;
pub mod parse;
pub mod laws;
pub mod model;
pub mod state;
pub mod transaction;

pub use digits::amount_to_string;
pub use state::State;
pub use transaction::{ClientId, Transaction, TransactionType, TxId};
