//! Replays account-transaction events into per-account balances.
//!
//! The ledger applies one event at a time against an account store and a
//! transaction store; every rejection leaves the balances and the stored
//! transactions as they were.
pub mod amount;
pub mod laws;
pub mod ledger;
pub mod record;

pub use amount::{Amount, AMOUNT_SCALE};
pub use ledger::{handle, handle_all, Client, LedgerError, Transaction, TransactionKind, TransactionStatus};
pub use record::{parse_record, RecordError};
