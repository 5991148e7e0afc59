//! What the venue says and hears over HTTP, short of HTTP itself: bodies, views, and the
//! statuses and codes of errors.
pub mod dto;
pub mod error;
pub mod extract;
pub mod laws;
