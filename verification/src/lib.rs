//! A bounded, monotonically-id'd capture log for raw HTTP request bytes,
//! together with the request serialization, payload classification and
//! index-page rendering that surround it.

pub mod download;
pub mod page;
pub mod serialize;
pub mod store;
pub mod text;
