//! Error taxonomy of the review engine.

use vstd::prelude::*;

verus! {

/// Errors raised by the item repository.
///
/// `NotFound` and `ConstraintViolation` describe the stored data itself;
/// `SchemaMismatch` and `IOFailure` originate in the durable storage engine
/// that mirrors the repository and are surfaced through the same type.
#[derive(Clone, Copy, Debug, PartialEq, Eq, Structural)]
pub enum StorageError {
    /// No row carries the requested id.
    NotFound,
    /// The store was opened against a schema whose version differs from
    /// [`SCHEMA_VERSION`]; the payload is the observed version.
    SchemaMismatch(u64),
    /// The underlying storage engine failed.
    IOFailure,
    /// A write would break a uniqueness or foreign-key constraint.
    ConstraintViolation,
}

/// Errors raised by the scheduling algorithm when handed malformed input.
#[derive(Clone, Copy, Debug, PartialEq, Eq, Structural)]
pub enum SchedulingError {
    /// A grade code that names no review outcome.
    InvalidOutcome,
    /// A scheduling state that violates its own invariants, or whose
    /// review counter can no longer be advanced.
    CorruptState,
}

/// Errors raised by the review-session controller.
#[derive(Clone, Copy, Debug, PartialEq, Eq, Structural)]
pub enum SessionError {
    /// The command is not legal in the session's current state; the
    /// session and the store are left untouched.
    InvalidCommandForState,
}

/// Umbrella error for the command surface of the engine.
#[derive(Clone, Copy, Debug, PartialEq, Eq, Structural)]
pub enum AppError {
    DatabaseError(StorageError),
    SchedulingError(SchedulingError),
    SessionError(SessionError),
}

/// The schema version the engine expects of an existing store: one version
/// count per table of the persisted schema.
pub const SCHEMA_VERSION: u64 = 3;

/// Gate for opening an existing store: accepts exactly the expected schema
/// version and reports any other as a fatal mismatch.
pub fn check_schema_version(observed: u64) -> (r: Result<(), StorageError>)
    ensures
        observed == SCHEMA_VERSION ==> r == Ok::<(), StorageError>(()),
        observed != SCHEMA_VERSION ==> r == Err::<(), StorageError>(StorageError::SchemaMismatch(observed)),
{
    if observed == SCHEMA_VERSION {
        Ok(())
    } else {
        Err(StorageError::SchemaMismatch(observed))
    }
}

} // verus!
