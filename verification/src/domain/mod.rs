//! Value types, the request aggregate and the rules that need nothing else.
pub mod ids;
pub mod matching;
pub mod money;
pub mod request;
pub mod state;
