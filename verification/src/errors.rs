//! One consolidated error taxonomy for the whole library.
//!
//! Every resolver, compiler and applier operation returns a typed result
//! drawn from this hierarchy; no failure is silently absorbed except the
//! deliberate lenient-mode row-count downgrade.

use vstd::prelude::*;
use crate::sync_requests::ClassDataSync;

verus! {

/// Why a state-conflict error was raised.
#[derive(Clone, Copy, PartialEq, Eq, Structural, Debug)]
pub enum ConflictKind {
    /// A select-scope operation was attempted while a global watermark exists.
    AllModeActive,
    /// "Sync everything" was requested while select scopes are registered.
    SelectModeActive,
    /// A term-level registration was requested for a school whose whole-school
    /// scope is already registered.
    SchoolFullyCovered,
    /// A whole-school entry was added twice to one request description.
    DuplicateSchool,
    /// A term entry was added twice to one request description.
    DuplicateTerm,
    /// An exclusion entry was added twice to one request description.
    DuplicateExclusion,
}

/// Why the store's contents could not be reconciled.
#[derive(Clone, Copy, PartialEq, Eq, Structural, Debug)]
pub enum IntegrityKind {
    /// Both all-mode and select-mode evidence were observed at once.
    DirtyState,
    /// Neither mode is present: no sync strategy has been set.
    StrategyNotSet,
    /// The store returned rows that cannot form a request description.
    ConflictingRows,
}

/// The library's error taxonomy: input validation, state conflicts, query
/// execution failures, strict-mode row-count mismatches, and data-integrity
/// faults.
#[derive(Debug)]
#[allow(inconsistent_fields)]
pub enum DataStoreError {
    /// A malformed input: bad column names, or a malformed selection string.
    /// `invalid_values` names every offending column; `record` carries the
    /// full change record for diagnostics when one was involved.
    InputValidation { message: String, invalid_values: Vec<String>, record: Option<ClassDataSync> },
    /// A mode mutual-exclusion violation or a duplicate/overlapping scope.
    StateConflict { kind: ConflictKind, message: String },
    /// An underlying prepare/execute failure, wrapped with a description of
    /// the query and the driver's own message.
    QueryExecution { query_info: String, detail: String },
    /// Strict mode only: a statement affected a number of rows other than the
    /// expected count.
    RowCountMismatch { query: String, result: usize, expected: usize },
    /// The store returned a shape that cannot be reconciled.
    DataIntegrity { kind: IntegrityKind, message: String },
}

impl DataStoreError {
    /// True when this error reports a state conflict of the given kind.
    pub open spec fn is_conflict(self, kind: ConflictKind) -> bool {
        self matches DataStoreError::StateConflict { kind: k, .. } && k == kind
    }

    /// True when this error reports a data-integrity fault of the given kind.
    pub open spec fn is_integrity(self, kind: IntegrityKind) -> bool {
        self matches DataStoreError::DataIntegrity { kind: k, .. } && k == kind
    }
}

/// A plain-text error kept for callers that only carry a message.
#[derive(Debug)]
pub struct SyncError {
    message: String,
}

impl SyncError {
    /// The message's text.
    pub closed spec fn text(self) -> Seq<char> {
        self.message@
    }

    /// Wraps a plain message.
    pub fn new(message: &str) -> (r: SyncError)
        ensures
            r.text() == message@,
    {
        SyncError { message: String::from_str(message) }
    }

    /// The message.
    pub fn message(&self) -> (r: &String)
        ensures
            r@ == self.text(),
    {
        &self.message
    }
}

} // verus!
