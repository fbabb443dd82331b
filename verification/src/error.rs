//! The storage layer's error taxonomy.
//!
//! Absence of a key is never an error at the batch operations; it is an
//! absent `Option`.  The variants here separate caller mistakes from
//! infrastructure trouble, because only the latter may advance the
//! circuit breaker towards its open state.

use vstd::prelude::*;

verus! {

/// One failure of a storage operation.
#[derive(Clone, Debug, PartialEq)]
pub enum Error {
    /// The process configuration could not be read.
    LoadConfigFailed(String),
    /// A caller-supplied value was rejected; the first field names the
    /// offending parameter, the second carries detail pairs for the
    /// transport layer to render.
    ValidationError(String, Option<Vec<(String, String)>>),
    /// A single-key lookup found nothing under the named key.
    KeyNotFound(String),
    /// A stored record could not be decoded back into an entry: on-disk
    /// corruption or a schema mismatch, fatal for that record.
    SerializationError(String),
    /// The durable backend's connection pool handed out no connection.
    PoolError(String),
    /// The circuit breaker is open: the backend is known bad and the
    /// call failed fast without touching it.
    CircuitOpen,
    /// The underlying driver failed executing a statement, e.g. on a
    /// constraint violation: a property of the statement, not of the
    /// backend's availability.
    DriverError(String),
    /// Any other infrastructure failure.
    GeneralError(String),
}

impl Error {
    /// Whether this failure speaks of the backend's availability and so
    /// counts towards opening the circuit breaker.  Caller mistakes and
    /// per-record corruption never do: one bad request must not trip the
    /// circuit for everyone.
    pub open spec fn spec_is_countable(&self) -> bool {
        match self {
            Error::PoolError(_) => true,
            Error::GeneralError(_) => true,
            _ => false,
        }
    }

    /// Classifies a failure for the circuit breaker.
    pub fn is_countable(&self) -> (r: bool)
        ensures
            r == self.spec_is_countable(),
    {
        match self {
            Error::PoolError(_) => true,
            Error::GeneralError(_) => true,
            _ => false,
        }
    }
}

} // verus!
