//! Error types for the Ray runtime.

use vstd::prelude::*;

verus! {

/// `std::io::Error`, carried by `RayError::Io`.
#[verifier::external_type_specification]
#[verifier::external_body]
pub struct ExIoError(std::io::Error);

/// `anyhow::Error`, carried by `RayError::Other`.
#[verifier::external_type_specification]
#[verifier::external_body]
pub struct ExAnyhowError(anyhow::Error);

/// Top-level error type for all Ray operations. Each variant carries the
/// message that follows its label ("Object not found: {0}", ...).
#[derive(Debug)]
pub enum RayError {
    ObjectNotFound(String),
    ObjectAlreadyExists(String),
    TaskFailed(String),
    TaskNotFound(String),
    ActorNotFound(String),
    ActorDied(String),
    NodeNotFound(String),
    InsufficientResources(String),
    SchedulingFailed(String),
    SerializationError(String),
    DeserializationError(String),
    SharedMemoryError(String),
    Timeout(String),
    Transport(String),
    GcsError(String),
    Internal(String),
    Io(std::io::Error),
    Other(anyhow::Error),
}

/// Convenience Result type for Ray operations.
pub type RayResult<T> = Result<T, RayError>;

} // verus!
