//! An embedded document-storage engine.
//!
//! Typed, schema-described records are serialized into a compact
//! big-endian binary form, kept in an append-only block store with
//! logical (tombstone) deletion, located by linear scan and predicate
//! evaluation, and guarded by per-record shared/exclusive locks with
//! FIFO waiter queues.
pub mod archive_laws;
pub mod archive_parser;
pub mod backend;
pub mod block_store;
pub mod bytes;
pub mod configuration;
pub mod document_serialize;
pub mod lock;
pub mod query;
pub mod schema;
