//! The error taxonomy of the translation core. Every error is recovered or
//! surfaced exactly as its variant says; none aborts a batch.

use vstd::prelude::*;
use vstd::string::StringExecFns;

verus! {

/// Why one record produced no observation.
#[derive(Clone, Debug, PartialEq, Eq, Structural)]
pub enum MetricsError {
    /// The record's unit tag is outside the enumeration: the record is
    /// dropped with a diagnostic, never merged into a numeric series.
    UnknownUnit,
    /// The record's namespace holds no `/`-separated tail to derive a
    /// family name from: the record is dropped with a diagnostic.
    MalformedNamespace,
    /// An observation supplied a label-value tuple of the wrong width for
    /// the family it addressed: a registration/resolution desynchronization
    /// that must be surfaced loudly.
    CardinalityMismatch { expected: usize, got: usize },
}

/// The diagnostic line of an error, for operators.
pub open spec fn describe_spec(e: MetricsError) -> Seq<char> {
    match e {
        MetricsError::UnknownUnit => "record with unknown unit dropped"@,
        MetricsError::MalformedNamespace => "record with malformed namespace dropped"@,
        MetricsError::CardinalityMismatch { .. } => {
            "label cardinality mismatch between observation and registration"@
        },
    }
}

impl MetricsError {
    /// A short diagnostic line for operators.
    pub fn describe(&self) -> (r: String)
        ensures
            r@ == describe_spec(*self),
    {
        match self {
            MetricsError::UnknownUnit => String::from_str("record with unknown unit dropped"),
            MetricsError::MalformedNamespace => String::from_str(
                "record with malformed namespace dropped",
            ),
            MetricsError::CardinalityMismatch { .. } => String::from_str(
                "label cardinality mismatch between observation and registration",
            ),
        }
    }
}

/// The remote endpoint rejected a push, or could not be reached: carried to
/// the push cycle's caller after the registry has been cleared, so the same
/// snapshot is never retried.
#[derive(Clone, Debug)]
pub struct PushError {
    pub status: u16,
    pub body: String,
}

} // verus!
