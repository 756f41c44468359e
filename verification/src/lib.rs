//! A content-addressed key-value store: a value is stored under the lowercase
//! hexadecimal SHA-1 digest of its bytes, behind a write-through in-memory
//! cache layered over a durable backing store, with a get/put/list request
//! protocol on top.

pub mod cache;
pub mod digest;
pub mod laws;
pub mod protocol;
pub mod store;
mod table;
