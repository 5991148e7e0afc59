//! In-memory ledger, clock and oracle.
pub mod clock;
pub mod ledger;
pub mod oracle;
