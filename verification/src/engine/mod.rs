//! The engine owns every request and is the only thing that moves funds.
pub mod command;
pub mod course;
pub mod deals;
pub mod entry;
pub mod error;
pub mod exact;
pub mod keeps;
pub mod laws;
pub mod model;
pub mod room;
pub mod soundness;
pub mod steps;
pub mod ticks;
pub mod transitions;
pub mod venue;
