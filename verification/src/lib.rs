//! An interactive terminal navigator over a personal financial ledger.
//!
//! The library holds the verified core: the circular-selection model, the
//! per-recipient aggregation, the screen state machine, the row formatting,
//! and the codec for the ledger's on-disk table format.  Terminal I/O and
//! event capture live outside, in the binary built around this crate.

pub mod app;
pub mod digits;
pub mod ident;
pub mod ledger;
pub mod record;
pub mod rows;
pub mod select;
pub mod store;
pub mod text;
pub mod timefmt;
