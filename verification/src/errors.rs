//! Typed, recoverable errors reported by the engine's services.

use vstd::prelude::*;

verus! {

/// Error kinds surfaced by the engine. Validation failures are `BadRequest`
/// (client-correctable, never mutate state); `Unauthorized` covers acting out
/// of turn or for a foreign entity; `NotFound` a missing aggregate;
/// `StorageError` / `QueueError` wrap collaborator failures.
#[derive(Debug, Clone, PartialEq, Eq)]
pub enum ServiceError {
    StorageError(String),
    BadRequest(String),
    QueueError(String),
    NotFound,
    Unauthorized,
}

impl ServiceError {
    /// The human-readable message of this error.
    pub fn message(&self) -> (r: String)
        ensures
            match self {
                ServiceError::StorageError(m) => r@ == m@,
                ServiceError::BadRequest(m) => r@ == m@,
                ServiceError::QueueError(m) => r@ == m@,
                ServiceError::NotFound => r@ == "Not found"@,
                ServiceError::Unauthorized => r@ == "Unauthorized"@,
            },
    {
        match self {
            ServiceError::StorageError(m) => m.clone(),
            ServiceError::BadRequest(m) => m.clone(),
            ServiceError::QueueError(m) => m.clone(),
            ServiceError::NotFound => "Not found".to_owned(),
            ServiceError::Unauthorized => "Unauthorized".to_owned(),
        }
    }
}

} // verus!
