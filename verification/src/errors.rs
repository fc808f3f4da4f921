//! Error taxonomy of the gateway core.

use vstd::prelude::*;

verus! {

/// A fault in the registry source, fatal at startup.
#[derive(Debug, Clone, PartialEq, Eq, Structural)]
pub enum ConfigError {
    /// Two model specs in the source share one name.
    DuplicateName,
    /// A model spec announces a context window of zero.
    InvalidContextWindow,
}

/// A request-time failure, returned to the caller as a terminal signal.
#[derive(Debug, Clone, PartialEq, Eq, Structural)]
pub enum RouterError {
    /// The request names a model absent from the registry.
    UnknownModel,
    /// The backend could not bring the model up.
    LoadFailed,
    /// The backend cannot currently serve requests.
    Unhealthy,
    /// Concurrency ceiling reached and the wait queue is full.
    Overloaded,
    /// The backend failed in the middle of a stream.
    StreamError,
    /// The caller abandoned the request; not a backend fault.
    Cancelled,
}

} // verus!
