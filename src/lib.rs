//! An in-memory key-value server core speaking RESP: a byte-exact codec, an
//! expiring store, and the command dispatcher that ties them together.
pub mod text;
pub mod error;
pub mod decode;
pub mod encode;
pub mod store;
pub mod commands;
pub mod dispatch;
pub mod laws;
