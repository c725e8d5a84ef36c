//! Pre-aggregation of metric samples into time-aligned buckets.
use vstd::prelude::*;

pub mod aggregator;
pub mod bucket;
pub mod config;
pub mod cost;
pub mod distribution;
pub mod error;
pub mod gauge;
pub mod healthcheck;
pub mod key;
pub mod protocol;
pub mod set;
pub mod tags;

pub use aggregator::{
    Aggregator, AggregatorState, FlushBuckets, InsertMetrics, MergeBuckets, MergeValue, QueuedBucket,
};
pub use bucket::{Bucket, BucketValue};
pub use config::AggregatorConfig;
pub use cost::CostTracker;
pub use distribution::DistributionValue;
pub use error::{AggregateMetricsError, AggregateMetricsErrorKind};
pub use gauge::GaugeValue;
pub use healthcheck::{Healthcheck, IsHealthy};
pub use key::BucketKey;
pub use protocol::{Metric, MetricType, MetricUnit, MetricValue, ProjectKey, UnixTimestamp};
pub use set::SetValue;
pub use tags::Tags;

verus! {

/// A byte count held at `usize::MAX` where it would exceed it.
pub open spec fn sat_usize(x: nat) -> usize {
    if x > usize::MAX {
        usize::MAX
    } else {
        x as usize
    }
}

/// `a + b`, held at `usize::MAX`.
pub fn sat_add_usize(a: usize, b: usize) -> (r: usize)
    ensures
        r == sat_usize(a as nat + b as nat),
{
    match a.checked_add(b) {
        Some(s) => s,
        None => usize::MAX,
    }
}

/// `a * b + c`, held at `usize::MAX`.
pub fn sat_mul_add(a: usize, b: usize, c: usize) -> (r: usize)
    ensures
        r == sat_usize(a as nat * b as nat + c as nat),
{
    match a.checked_mul(b) {
        Some(p) => match p.checked_add(c) {
            Some(s) => s,
            None => usize::MAX,
        },
        None => {
            assert(a as nat * b as nat + c as nat > usize::MAX) by (nonlinear_arith)
                requires a as nat * b as nat > usize::MAX;
            usize::MAX
        },
    }
}

} // verus!
