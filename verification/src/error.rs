//! Errors from the publication projections.

use vstd::prelude::*;

verus! {

/// Why the schedule query behind a projection failed.
#[derive(Clone, Debug)]
pub enum GtfsError {
    /// The output cannot be represented under the frequency policy.
    PolicyViolation(String),
    /// The feed cannot answer the query.
    Other(String),
}

/// An error that stops a projection from producing a document.
///
/// Everything that a projection can work around becomes a diagnostic
/// in the document metadata instead.
#[derive(Clone, Debug)]
pub enum PublicationError {
    /// The configuration cannot work.
    Configuration(String),
    /// The requested station is not in the feed.
    UnresolvedStation(String),
    /// The requested line is not in the feed.
    UnresolvedLine(String),
    /// The requested corridor cannot be built.
    UnresolvedCorridor(String),
    /// The schedule query failed.
    Gtfs(GtfsError),
}

/// The exit code of the command line for an error.
///
/// | Code | Meaning |
/// |------|---------|
/// | 2 | invalid command or configuration |
/// | 4 | invalid GTFS feed |
/// | 5 | unresolved station, line, pattern, or corridor |
/// | 6 | the output cannot be represented under the policy |
pub open spec fn exit_code_spec(e: PublicationError) -> i32 {
    match e {
        PublicationError::Configuration(_) => 2,
        PublicationError::UnresolvedStation(_) => 5,
        PublicationError::UnresolvedLine(_) => 5,
        PublicationError::UnresolvedCorridor(_) => 5,
        PublicationError::Gtfs(GtfsError::PolicyViolation(_)) => 6,
        PublicationError::Gtfs(GtfsError::Other(_)) => 4,
    }
}

impl PublicationError {
    /// Get the process exit code that the command line uses for this
    /// error.
    pub fn exit_code(&self) -> (c: i32)
        ensures
            c == exit_code_spec(*self),
    {
        match self {
            PublicationError::Configuration(_) => 2,
            PublicationError::UnresolvedStation(_) => 5,
            PublicationError::UnresolvedLine(_) => 5,
            PublicationError::UnresolvedCorridor(_) => 5,
            PublicationError::Gtfs(GtfsError::PolicyViolation(_)) => 6,
            PublicationError::Gtfs(GtfsError::Other(_)) => 4,
        }
    }

    /// The message of the error, as the command line prints it.
    pub fn message(&self) -> (m: String)
        ensures
            m@ == match *self {
                PublicationError::Configuration(s) => "the configuration is not usable: "@ + s@,
                PublicationError::UnresolvedStation(s) => s@,
                PublicationError::UnresolvedLine(s) => s@,
                PublicationError::UnresolvedCorridor(s) => s@,
                PublicationError::Gtfs(GtfsError::PolicyViolation(s)) => s@,
                PublicationError::Gtfs(GtfsError::Other(s)) => s@,
            },
    {
        match self {
            PublicationError::Configuration(s) => {
                let mut out = crate::textbuf::owned("the configuration is not usable: ");
                crate::textbuf::push_str(&mut out, s.as_str());
                out
            },
            PublicationError::UnresolvedStation(s) => crate::textbuf::owned(s.as_str()),
            PublicationError::UnresolvedLine(s) => crate::textbuf::owned(s.as_str()),
            PublicationError::UnresolvedCorridor(s) => crate::textbuf::owned(s.as_str()),
            PublicationError::Gtfs(GtfsError::PolicyViolation(s)) => crate::textbuf::owned(s.as_str()),
            PublicationError::Gtfs(GtfsError::Other(s)) => crate::textbuf::owned(s.as_str()),
        }
    }
}

} // verus!
