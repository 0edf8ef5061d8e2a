use vstd::prelude::*;

verus! {

/// Failure to parse the textual form of one of the registry's enumerations.
#[derive(Debug, PartialEq, Eq, Clone)]
pub enum ParseError {
    UnknownGroup { group: String },
    UnknownDependencyType { name: String },
    UnknownNodeType { name: String },
    UnknownLanguage { language: String },
}

/// The typed failures of the store operations.
///
/// Read operations surface `NotFound` and `StoreError`; publish surfaces
/// `Conflict`, `ValidationFailure` and `StoreError` and rolls back to a no-op
/// on each of them. `InternalConsistency` marks a grouping or id-mapping
/// lookup that failed, which correct stores never produce.
#[derive(Debug, PartialEq, Eq, Structural, Clone, Copy)]
pub enum DbError {
    NotFound,
    Conflict,
    ValidationFailure,
    InternalConsistency,
    StoreError,
}

} // verus!
