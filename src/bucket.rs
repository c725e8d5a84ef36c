//! Bucket values: the aggregate of one kind held by a bucket, its cost and merge rules.
use vstd::multiset::Multiset;
use vstd::prelude::*;

use crate::distribution::DistributionValue;
use crate::error::{err, error_of, AggregateMetricsError, AggregateMetricsErrorKind};
use crate::gauge::{gauge_inserted, gauge_merged, sat_add, saturating_add_i64, GaugeValue};
use crate::protocol::{CounterType, MetricType, MetricUnit, MetricValue, UnixTimestamp};
use crate::set::SetValue;
use crate::key::BucketKey;
use crate::tags::Tags;
use crate::{sat_mul_add, sat_usize};

verus! {

/// Fixed size of a bucket value, in bytes.
pub const BUCKET_VALUE_SIZE: usize = 48;

/// Bytes per set member.
pub const SET_ENTRY_SIZE: usize = 4;

/// Bytes per unique distribution value: the value and its count.
pub const DISTRIBUTION_ENTRY_SIZE: usize = 12;

/// The aggregated value of a metric bucket.
#[derive(Clone, Debug, PartialEq)]
pub enum BucketValue {
    /// Sum of counter increments, saturating at the bounds of the type.
    Counter(CounterType),
    /// Every distribution sample.
    Distribution(DistributionValue),
    /// The unique set members.
    UniqueSet(SetValue),
    /// Summary of gauge readings.
    Gauge(GaugeValue),
}

impl BucketValue {
    /// The value is internally consistent.
    pub open spec fn wf(&self) -> bool {
        match self {
            BucketValue::Counter(_) => true,
            BucketValue::Distribution(d) => d.wf(),
            BucketValue::UniqueSet(s) => s.wf(),
            BucketValue::Gauge(_) => true,
        }
    }

    pub open spec fn spec_ty(&self) -> MetricType {
        match self {
            BucketValue::Counter(_) => MetricType::Counter,
            BucketValue::Distribution(_) => MetricType::Distribution,
            BucketValue::UniqueSet(_) => MetricType::UniqueSet,
            BucketValue::Gauge(_) => MetricType::Gauge,
        }
    }

    /// Estimated bytes: the fixed size plus 4 per set member or 12 per unique distribution value.
    pub open spec fn spec_cost(&self) -> nat {
        BUCKET_VALUE_SIZE as nat + match self {
            BucketValue::Counter(_) => 0,
            BucketValue::Distribution(d) => DISTRIBUTION_ENTRY_SIZE as nat * d.entries().len(),
            BucketValue::UniqueSet(s) => SET_ENTRY_SIZE as nat * s.elements().len(),
            BucketValue::Gauge(_) => 0,
        }
    }

    /// Returns the type of this value.
    pub fn ty(&self) -> (r: MetricType)
        ensures
            r == self.spec_ty(),
    {
        match self {
            BucketValue::Counter(_) => MetricType::Counter,
            BucketValue::Distribution(_) => MetricType::Distribution,
            BucketValue::UniqueSet(_) => MetricType::UniqueSet,
            BucketValue::Gauge(_) => MetricType::Gauge,
        }
    }

    /// Estimates the number of bytes needed to hold the value.
    pub fn cost(&self) -> (r: usize)
        requires
            self.wf(),
        ensures
            r == sat_usize(self.spec_cost()),
    {
        match self {
            BucketValue::Counter(_) => BUCKET_VALUE_SIZE,
            BucketValue::Distribution(d) => sat_mul_add(DISTRIBUTION_ENTRY_SIZE, d.unique_len(), BUCKET_VALUE_SIZE),
            BucketValue::UniqueSet(s) => sat_mul_add(SET_ENTRY_SIZE, s.len(), BUCKET_VALUE_SIZE),
            BucketValue::Gauge(_) => BUCKET_VALUE_SIZE,
        }
    }

    /// A copy of this value.
    pub fn duplicate(&self) -> (r: BucketValue)
        ensures
            same_value(*self, r),
            r.wf() == self.wf(),
            r.spec_cost() == self.spec_cost(),
            r.spec_ty() == self.spec_ty(),
    {
        match self {
            BucketValue::Counter(c) => BucketValue::Counter(*c),
            BucketValue::Distribution(d) => BucketValue::Distribution(d.duplicate()),
            BucketValue::UniqueSet(s) => BucketValue::UniqueSet(s.duplicate()),
            BucketValue::Gauge(g) => BucketValue::Gauge(*g),
        }
    }

    /// The bucket value made of a single sample.
    pub fn from_metric(value: MetricValue) -> (r: BucketValue)
        ensures
            r.wf(),
            r.spec_ty() == value.spec_ty(),
            from_metric_spec(r, value),
    {
        match value {
            MetricValue::Counter(v) => BucketValue::Counter(v),
            MetricValue::Distribution(v) => {
                let mut d = DistributionValue::new();
                d.insert(v);
                proof {
                    assert(Multiset::<i64>::empty().insert(v) =~= Multiset::<i64>::singleton(v));
                }
                BucketValue::Distribution(d)
            },
            MetricValue::UniqueSet(v) => {
                let mut s = SetValue::new();
                s.insert(v);
                assert(s@ =~= Set::<u32>::empty().insert(v));
                BucketValue::UniqueSet(s)
            },
            MetricValue::Gauge(v) => BucketValue::Gauge(GaugeValue::single(v)),
        }
    }

    /// Merges `self` into `target`: counters add, distributions add their samples, sets unite
    /// and gauges merge with `last` taken from `self`.
    pub fn merge_into(self, target: &mut BucketValue) -> (r: Result<(), AggregateMetricsError>)
        requires
            old(target).wf(),
            self.wf(),
        ensures
            final(target).wf(),
            r.is_ok() <==> (self.spec_ty() == old(target).spec_ty() && !sample_overflow(*old(target), self)),
            r.is_ok() ==> merged_spec(*old(target), self, *final(target)),
            self.spec_ty() != old(target).spec_ty() ==> r == Err::<(), AggregateMetricsError>(err(AggregateMetricsErrorKind::InvalidTypes)),
            self.spec_ty() == old(target).spec_ty() && sample_overflow(*old(target), self) ==> r
                == Err::<(), AggregateMetricsError>(err(AggregateMetricsErrorKind::SampleCountExceeded)),
            r.is_err() ==> *final(target) == *old(target),
            final(target).spec_cost() >= old(target).spec_cost(),
            final(target).spec_ty() == old(target).spec_ty(),
    {
        match (target, self) {
            (BucketValue::Counter(lhs), BucketValue::Counter(rhs)) => {
                *lhs = saturating_add_i64(*lhs, rhs);
                Ok(())
            },
            (BucketValue::Distribution(lhs), BucketValue::Distribution(rhs)) => {
                if rhs.len() > u32::MAX - lhs.len() {
                    return Err(error_of(AggregateMetricsErrorKind::SampleCountExceeded));
                }
                lhs.merge(&rhs);
                Ok(())
            },
            (BucketValue::UniqueSet(lhs), BucketValue::UniqueSet(rhs)) => {
                lhs.merge(&rhs);
                Ok(())
            },
            (BucketValue::Gauge(lhs), BucketValue::Gauge(rhs)) => {
                lhs.merge(rhs);
                Ok(())
            },
            _ => Err(error_of(AggregateMetricsErrorKind::InvalidTypes)),
        }
    }
}

/// Two values of the same kind with the same content.
pub open spec fn same_value(a: BucketValue, b: BucketValue) -> bool {
    match (a, b) {
        (BucketValue::Counter(x), BucketValue::Counter(y)) => x == y,
        (BucketValue::Distribution(x), BucketValue::Distribution(y)) => x@ == y@ && x.entries() == y.entries(),
        (BucketValue::UniqueSet(x), BucketValue::UniqueSet(y)) => x@ == y@ && x.elements() == y.elements(),
        (BucketValue::Gauge(x), BucketValue::Gauge(y)) => x == y,
        _ => false,
    }
}

/// The bucket value `r` holds exactly the sample `m`.
pub open spec fn from_metric_spec(r: BucketValue, m: MetricValue) -> bool {
    match (r, m) {
        (BucketValue::Counter(a), MetricValue::Counter(b)) => a == b,
        (BucketValue::Distribution(d), MetricValue::Distribution(b)) => d@ == Multiset::singleton(b),
        (BucketValue::UniqueSet(s), MetricValue::UniqueSet(b)) => s@ == Set::<u32>::empty().insert(b),
        (BucketValue::Gauge(g), MetricValue::Gauge(b)) => g == GaugeValue::single_spec(b),
        _ => false,
    }
}

/// Merging `other` into a distribution `target` would take its sample count past `u32::MAX`.
pub open spec fn sample_overflow(target: BucketValue, other: BucketValue) -> bool {
    match (target, other) {
        (BucketValue::Distribution(a), BucketValue::Distribution(b)) => a@.len() + b@.len() > u32::MAX,
        _ => false,
    }
}

/// `after` is `before` with `other` merged in.
pub open spec fn merged_spec(before: BucketValue, other: BucketValue, after: BucketValue) -> bool {
    match (before, other, after) {
        (BucketValue::Counter(a), BucketValue::Counter(b), BucketValue::Counter(c)) => c == sat_add(
            a as int,
            b as int,
        ),
        (
            BucketValue::Distribution(a),
            BucketValue::Distribution(b),
            BucketValue::Distribution(c),
        ) => c@ == a@.add(b@),
        (BucketValue::UniqueSet(a), BucketValue::UniqueSet(b), BucketValue::UniqueSet(c)) => c@ == a@.union(b@),
        (BucketValue::Gauge(a), BucketValue::Gauge(b), BucketValue::Gauge(c)) => c == gauge_merged(a, b),
        _ => false,
    }
}

/// Adding the sample `m` to a distribution `target` would take its count past `u32::MAX`.
pub open spec fn metric_overflow(target: BucketValue, m: MetricValue) -> bool {
    match (target, m) {
        (BucketValue::Distribution(a), MetricValue::Distribution(_)) => a@.len() >= u32::MAX,
        _ => false,
    }
}

/// `after` is `before` with the single sample `m` added.
pub open spec fn inserted_spec(before: BucketValue, m: MetricValue, after: BucketValue) -> bool {
    match (before, m, after) {
        (BucketValue::Counter(a), MetricValue::Counter(b), BucketValue::Counter(c)) => c == sat_add(
            a as int,
            b as int,
        ),
        (
            BucketValue::Distribution(a),
            MetricValue::Distribution(b),
            BucketValue::Distribution(c),
        ) => c@ == a@.insert(b),
        (BucketValue::UniqueSet(a), MetricValue::UniqueSet(b), BucketValue::UniqueSet(c)) => c@ == a@.insert(b),
        (BucketValue::Gauge(a), MetricValue::Gauge(b), BucketValue::Gauge(c)) => c == gauge_inserted(a, b),
        _ => false,
    }
}

impl MetricValue {
    /// Adds this single sample to `target`, following the rules of its kind.
    pub fn merge_into(self, target: &mut BucketValue) -> (r: Result<(), AggregateMetricsError>)
        requires
            old(target).wf(),
        ensures
            final(target).wf(),
            r.is_ok() <==> (self.spec_ty() == old(target).spec_ty() && !metric_overflow(*old(target), self)),
            r.is_ok() ==> inserted_spec(*old(target), self, *final(target)),
            self.spec_ty() != old(target).spec_ty() ==> r == Err::<(), AggregateMetricsError>(err(AggregateMetricsErrorKind::InvalidTypes)),
            self.spec_ty() == old(target).spec_ty() && metric_overflow(*old(target), self) ==> r
                == Err::<(), AggregateMetricsError>(err(AggregateMetricsErrorKind::SampleCountExceeded)),
            r.is_err() ==> *final(target) == *old(target),
            final(target).spec_cost() >= old(target).spec_cost(),
            final(target).spec_ty() == old(target).spec_ty(),
    {
        match (target, self) {
            (BucketValue::Counter(counter), MetricValue::Counter(value)) => {
                *counter = saturating_add_i64(*counter, value);
                Ok(())
            },
            (BucketValue::Distribution(distribution), MetricValue::Distribution(value)) => {
                if distribution.len() == u32::MAX {
                    return Err(error_of(AggregateMetricsErrorKind::SampleCountExceeded));
                }
                distribution.insert(value);
                Ok(())
            },
            (BucketValue::UniqueSet(set), MetricValue::UniqueSet(value)) => {
                set.insert(value);
                Ok(())
            },
            (BucketValue::Gauge(gauge), MetricValue::Gauge(value)) => {
                gauge.insert(value);
                Ok(())
            },
            _ => Err(error_of(AggregateMetricsErrorKind::InvalidTypes)),
        }
    }
}

/// An aggregation of metric values: the input and output record of the engine.
#[derive(Clone, Debug)]
pub struct Bucket {
    /// The start of the time window.
    pub timestamp: UnixTimestamp,
    /// The length of the time window in seconds.
    pub width: u64,
    /// The name of the metric.
    pub name: String,
    /// The unit of the metric value.
    pub unit: MetricUnit,
    /// The type and aggregated value.
    pub value: BucketValue,
    /// Dimensions of the metric; every combination of tags is a different bucket.
    pub tags: Tags,
}

impl Bucket {
    /// The output record of a live bucket: the key's fields, the interval as width, and the
    /// value.
    pub fn from_parts(key: BucketKey, bucket_interval: u64, value: BucketValue) -> (r: Bucket)
        ensures
            r.timestamp == key.timestamp,
            r.width == bucket_interval,
            r.name@ == key@.name,
            r.unit@ == key@.unit,
            r.value == value,
            r.tags@ == key@.tags,
    {
        Bucket {
            timestamp: key.timestamp,
            width: bucket_interval,
            name: key.metric_name,
            unit: key.metric_unit,
            value,
            tags: key.tags,
        }
    }
}

} // verus!
