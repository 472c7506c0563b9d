//! A relational storage layer for an ordered, transactional key-value store.
//!
//! The library owns the key-space layout, the schema catalog, the row payload
//! codec, and the decision logic of every operation: validating a record
//! against a table schema, allocating a row identifier, and producing the
//! exact set of key-value writes that one insert commits atomically. A thin
//! asynchronous shell drives the KV engine's transactions and hands every
//! decision to the functions in this crate.

pub mod codec;
pub mod database;
pub mod errors;
pub mod index;
pub mod keys;
pub mod record;
pub mod row;
pub mod storage;
pub mod table;
pub mod table_metadata;
