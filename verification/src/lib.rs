//! A request-for-quote venue for binary contracts: best-quote matching, collateral, escrow and
//! settlement, as a library whose every function with a body is proved against its contract.
pub mod api;
pub mod domain;
pub mod engine;
pub mod ledger;
pub mod mock;
pub mod ports;
pub mod seqs;
pub mod text;
pub mod time;
