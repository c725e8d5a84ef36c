//! Errors of the aggregation engine.
use vstd::prelude::*;

verus! {

/// The distinct reasons for which a sample or bucket is refused.
#[derive(Clone, Copy, Debug, PartialEq, Eq, Structural)]
pub enum AggregateMetricsErrorKind {
    /// The metric name is not a valid metric resource identifier.
    InvalidCharacters,
    /// The aligned timestamp lies outside the acceptance window.
    InvalidTimestamp,
    /// A value of one metric type was merged into a bucket of another.
    InvalidTypes,
    /// The metric name is longer than the configured limit.
    InvalidStringLength,
    /// The global cost limit was reached before admission.
    TotalLimitExceeded,
    /// The project's cost limit was reached before admission.
    ProjectLimitExceeded,
    /// The bucket already holds as many distribution samples as its counter can count.
    SampleCountExceeded,
}

/// Any error that may occur during aggregation.
#[derive(Clone, Copy, Debug, PartialEq, Eq, Structural)]
pub struct AggregateMetricsError {
    pub kind: AggregateMetricsErrorKind,
}

impl AggregateMetricsError {
    /// The reason of this error.
    pub fn kind(&self) -> (r: AggregateMetricsErrorKind)
        ensures
            r == self.kind,
    {
        self.kind
    }

    /// A short human-readable description of the error.
    pub fn message(&self) -> (r: &'static str) {
        match self.kind {
            AggregateMetricsErrorKind::InvalidCharacters => "found invalid characters",
            AggregateMetricsErrorKind::InvalidTimestamp => "found invalid timestamp",
            AggregateMetricsErrorKind::InvalidTypes => "found incompatible metric types",
            AggregateMetricsErrorKind::InvalidStringLength => "found invalid string",
            AggregateMetricsErrorKind::TotalLimitExceeded => "total metrics limit exceeded",
            AggregateMetricsErrorKind::ProjectLimitExceeded => "project metrics limit exceeded",
            AggregateMetricsErrorKind::SampleCountExceeded => "distribution sample count exceeded",
        }
    }
}

impl From<AggregateMetricsErrorKind> for AggregateMetricsError {
    fn from(kind: AggregateMetricsErrorKind) -> (r: Self) {
        AggregateMetricsError { kind }
    }
}

impl vstd::std_specs::convert::FromSpecImpl<AggregateMetricsErrorKind> for AggregateMetricsError {
    open spec fn obeys_from_spec() -> bool {
        true
    }

    open spec fn from_spec(kind: AggregateMetricsErrorKind) -> Self {
        AggregateMetricsError { kind }
    }
}

/// The error of the given kind.
pub open spec fn err(kind: AggregateMetricsErrorKind) -> AggregateMetricsError {
    AggregateMetricsError { kind }
}

/// Builds the error of the given kind.
pub fn error_of(kind: AggregateMetricsErrorKind) -> (r: AggregateMetricsError)
    ensures
        r == err(kind),
{
    AggregateMetricsError { kind }
}

} // verus!
