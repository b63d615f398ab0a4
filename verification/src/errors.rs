//! The error taxonomy of the scan.
//!
//! Construction-time errors abort the whole operation before any worker
//! starts; in-loop errors stop only the worker that saw them and degrade the
//! final result instead of aborting it.

use vstd::prelude::*;

verus! {

/// Everything that can go wrong around a scan.
#[derive(Clone, Copy, PartialEq, Eq, Structural, Debug)]
pub enum ScanError {
    /// The storage behind the reference set or the large table could not be
    /// opened.  Fatal: raised before any worker starts.
    ConnectionError,
    /// The expected collection is absent from the store.  Fatal: raised
    /// before any worker starts.
    SchemaError,
    /// A single retrieval failed inside a worker.  Local: stops that worker
    /// only, the siblings continue.
    QueryError,
    /// A worker terminated abnormally.  Reported, not fatal: the aggregated
    /// result stays valid but may be incomplete.
    JoinError,
}

impl ScanError {
    /// Whether this error aborts the whole scan before any worker starts,
    /// as opposed to degrading the result of a running scan.
    pub fn is_fatal(&self) -> (r: bool)
        ensures
            r == (*self == ScanError::ConnectionError || *self == ScanError::SchemaError),
    {
        match self {
            ScanError::ConnectionError => true,
            ScanError::SchemaError => true,
            ScanError::QueryError => false,
            ScanError::JoinError => false,
        }
    }
}

} // verus!
