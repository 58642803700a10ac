//! The error taxonomy of the engine, and the stable numeric code assigned to
//! each kind for transport to clients.

use vstd::prelude::*;

verus! {

/// Everything that can go wrong in an engine operation.
#[derive(Clone, Copy, Debug, PartialEq, Eq, Structural)]
pub enum ErrorKind {
    NoTourWithID,
    NoStopWithID,
    InvalidRepositoryPath,
    InvalidCommitHash,
    NoPathForTour,
    NoVersionForRepository,
    ExpectedAbsolutePath,
    NoRepositoryForFile,
    RepositoryNotInIndex,
    FailedToReadTour,
    FailedToReadIndex,
    FailedToWriteTour,
    FailedToWriteIndex,
    FailedToWriteZip,
    FailedToParseTour,
    FailedToSerializeTour,
    DiffFailed,
    FailedToParseRevision,
    FailedToParseIndex,
    FailedToSerializeIndex,
    EncodingFailure,
    ZipFailure,
    TourNotEditable,
    TourNotUpToDate,
    PositionDeltaOutOfRange,
}

/// The error kinds a persistence implementation may surface: failures to
/// read, parse, serialize or write a tour file, or a missing path
/// assignment.
pub open spec fn persistence_error(e: ErrorKind) -> bool {
    ||| e == ErrorKind::NoPathForTour
    ||| e == ErrorKind::FailedToReadTour
    ||| e == ErrorKind::FailedToWriteTour
    ||| e == ErrorKind::FailedToParseTour
    ||| e == ErrorKind::FailedToSerializeTour
}

/// The error kinds a repository index implementation may surface: failures
/// to read, parse, serialize or write its store.
pub open spec fn index_error(e: ErrorKind) -> bool {
    ||| e == ErrorKind::FailedToReadIndex
    ||| e == ErrorKind::FailedToWriteIndex
    ||| e == ErrorKind::FailedToParseIndex
    ||| e == ErrorKind::FailedToSerializeIndex
}

/// The error kinds a version-control backend may surface from a query: a
/// repository or commit it cannot make sense of, a failed diff, a revision
/// it cannot parse, or contents that are not text.
pub open spec fn vcs_error(e: ErrorKind) -> bool {
    ||| e == ErrorKind::InvalidRepositoryPath
    ||| e == ErrorKind::InvalidCommitHash
    ||| e == ErrorKind::DiffFailed
    ||| e == ErrorKind::FailedToParseRevision
    ||| e == ErrorKind::EncodingFailure
}

/// The numeric code of each error kind, grouped by family: recoverable
/// conditions in the 300s, input errors in the 400s, I/O failures in the
/// 500s, anomalies in the 600s.
pub open spec fn error_code_spec(kind: ErrorKind) -> int {
    match kind {
        ErrorKind::NoRepositoryForFile => 300,
        ErrorKind::RepositoryNotInIndex => 301,
        ErrorKind::TourNotEditable => 310,
        ErrorKind::TourNotUpToDate => 311,
        ErrorKind::NoPathForTour => 320,
        ErrorKind::NoTourWithID => 400,
        ErrorKind::NoStopWithID => 401,
        ErrorKind::InvalidRepositoryPath => 410,
        ErrorKind::ExpectedAbsolutePath => 411,
        ErrorKind::InvalidCommitHash => 420,
        ErrorKind::NoVersionForRepository => 421,
        ErrorKind::FailedToReadTour => 500,
        ErrorKind::FailedToWriteTour => 501,
        ErrorKind::FailedToReadIndex => 510,
        ErrorKind::FailedToWriteIndex => 511,
        ErrorKind::FailedToWriteZip => 520,
        ErrorKind::FailedToSerializeTour => 530,
        ErrorKind::FailedToSerializeIndex => 531,
        ErrorKind::FailedToParseTour => 541,
        ErrorKind::FailedToParseRevision => 542,
        ErrorKind::FailedToParseIndex => 543,
        ErrorKind::EncodingFailure => 600,
        ErrorKind::ZipFailure => 601,
        ErrorKind::PositionDeltaOutOfRange => 602,
        ErrorKind::DiffFailed => 603,
    }
}

/// The numeric code sent to clients for `kind`.
pub fn error_code(kind: &ErrorKind) -> (r: i64)
    ensures
        r == error_code_spec(*kind),
{
    match kind {
        ErrorKind::NoRepositoryForFile => 300,
        ErrorKind::RepositoryNotInIndex => 301,
        ErrorKind::TourNotEditable => 310,
        ErrorKind::TourNotUpToDate => 311,
        ErrorKind::NoPathForTour => 320,
        ErrorKind::NoTourWithID => 400,
        ErrorKind::NoStopWithID => 401,
        ErrorKind::InvalidRepositoryPath => 410,
        ErrorKind::ExpectedAbsolutePath => 411,
        ErrorKind::InvalidCommitHash => 420,
        ErrorKind::NoVersionForRepository => 421,
        ErrorKind::FailedToReadTour => 500,
        ErrorKind::FailedToWriteTour => 501,
        ErrorKind::FailedToReadIndex => 510,
        ErrorKind::FailedToWriteIndex => 511,
        ErrorKind::FailedToWriteZip => 520,
        ErrorKind::FailedToSerializeTour => 530,
        ErrorKind::FailedToSerializeIndex => 531,
        ErrorKind::FailedToParseTour => 541,
        ErrorKind::FailedToParseRevision => 542,
        ErrorKind::FailedToParseIndex => 543,
        ErrorKind::EncodingFailure => 600,
        ErrorKind::ZipFailure => 601,
        ErrorKind::PositionDeltaOutOfRange => 602,
        ErrorKind::DiffFailed => 603,
    }
}

} // verus!
