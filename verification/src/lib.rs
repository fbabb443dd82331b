//! A verified key-value storage core.
//!
//! Callers store, fetch, and delete typed values addressed by a string key,
//! optionally scoped to an owning identity.  This crate holds the verified
//! heart of the service: the typed-entry data model and its codec onto a
//! sparse-column record, the storage-interface semantics, the batch request
//! shaping used by the HTTP layer, the circuit-breaker state machine that
//! shields the durable backend, and the configuration model.  Process
//! wiring, HTTP transport and the actual network backends live outside,
//! and hand this crate plain values.

pub mod api;
pub mod async_redis;
pub mod breaker;
pub mod config;
pub mod db;
pub mod decimal;
pub mod error;
pub mod models;
pub mod store;
