//! The aggregator: validation, admission, the live map of buckets and the flush sweep.
use vstd::prelude::*;
use vstd::utf8::encode_utf8;

use crate::bucket::{
    from_metric_spec, inserted_spec, merged_spec, metric_overflow, sample_overflow, Bucket,
    BucketValue,
};
use crate::config::AggregatorConfig;
use crate::cost::{
    admission, cost_for, lemma_push, lemma_remove, lemma_update, sum_costs, totals_exceeded,
    CostTracker, ProjectCost,
};
use crate::error::{err, error_of, AggregateMetricsError, AggregateMetricsErrorKind};
use crate::key::{key_cost, BucketKey, KeyView};
use crate::protocol::{is_valid_mri, valid_mri, Metric, MetricType, MetricValue, ProjectKey, UnixTimestamp};
use crate::sat_usize;
use crate::tags::{byte_len, text_len, validated_entries};

verus! {

/// A bucket value waiting in the aggregator, with the instant (milliseconds since the epoch)
/// at which it is due.
#[derive(Clone, Debug)]
pub struct QueuedBucket {
    pub flush_at: u64,
    pub value: BucketValue,
}

impl QueuedBucket {
    /// Creates a queued bucket with the given deadline.
    pub fn new(flush_at: u64, value: BucketValue) -> (r: Self)
        ensures
            r.flush_at == flush_at,
            r.value == value,
    {
        QueuedBucket { flush_at, value }
    }

    /// Whether the deadline has passed at `now_ms`.
    pub fn elapsed(&self, now_ms: u64) -> (r: bool)
        ensures
            r == (now_ms > self.flush_at),
    {
        now_ms > self.flush_at
    }
}

/// Whether the aggregator runs normally or drains everything at the next sweep.
#[derive(Clone, Copy, Debug, PartialEq, Eq, Structural)]
pub enum AggregatorState {
    Running,
    ShuttingDown,
}

/// A value merged into the aggregator: a whole bucket value or a single sample.
#[derive(Debug)]
pub enum MergeValue {
    Bucket(BucketValue),
    Sample(MetricValue),
}

impl MergeValue {
    pub open spec fn spec_ty(&self) -> MetricType {
        match self {
            MergeValue::Bucket(b) => b.spec_ty(),
            MergeValue::Sample(m) => m.spec_ty(),
        }
    }

    pub open spec fn wf(&self) -> bool {
        match self {
            MergeValue::Bucket(b) => b.wf(),
            MergeValue::Sample(_) => true,
        }
    }
}

/// `new_v` is `old_v` with the incoming value merged in.
pub open spec fn merged_value(old_v: BucketValue, inc: MergeValue, new_v: BucketValue) -> bool {
    match inc {
        MergeValue::Bucket(b) => merged_spec(old_v, b, new_v),
        MergeValue::Sample(m) => inserted_spec(old_v, m, new_v),
    }
}

/// Merging into `old_v` would exceed the sample counter of a distribution.
pub open spec fn merge_overflows(old_v: BucketValue, inc: MergeValue) -> bool {
    match inc {
        MergeValue::Bucket(b) => sample_overflow(old_v, b),
        MergeValue::Sample(m) => metric_overflow(old_v, m),
    }
}

/// `v` is the bucket value that the incoming value starts a bucket with.
pub open spec fn fresh_value(inc: MergeValue, v: BucketValue) -> bool {
    match inc {
        MergeValue::Bucket(b) => v == b,
        MergeValue::Sample(m) => from_metric_spec(v, m),
    }
}

/// The cost accounted for one live entry: its key's and its value's.
pub open spec fn entry_cost(k: KeyView, v: BucketValue) -> nat {
    sat_usize(key_cost(k)) as nat + sat_usize(v.spec_cost()) as nat
}

/// One live entry: key, value and flush deadline.
pub type LiveEntry = (KeyView, BucketValue, u64);

/// The project and cost of each live entry.
pub open spec fn live_costs(s: Seq<LiveEntry>) -> Seq<ProjectCost> {
    s.map_values(|e: LiveEntry| (e.0.project, entry_cost(e.0, e.1)))
}

/// The key after validation: `Err` when the name is too long or malformed, else the key with
/// its invalid tags dropped and its tag values normalized.
pub open spec fn validated_key(cfg: AggregatorConfig, k: KeyView) -> Result<KeyView, AggregateMetricsError> {
    if text_len(k.name) > cfg.max_name_length {
        Err(err(AggregateMetricsErrorKind::InvalidStringLength))
    } else if !is_valid_mri(k.name) {
        Err(err(AggregateMetricsErrorKind::InvalidCharacters))
    } else {
        Ok(KeyView { tags: validated_entries(k.tags, cfg.max_tag_key_length, cfg.max_tag_value_length), ..k })
    }
}

/// Index of the live entry with key `k`.
pub open spec fn has_entry(s: Seq<LiveEntry>, i: int, k: KeyView) -> bool {
    0 <= i < s.len() && s[i].0 == k
}

/// A collector of metric submissions into time-aligned buckets.
#[derive(Debug)]
pub struct Aggregator {
    config: AggregatorConfig,
    buckets: Vec<(BucketKey, QueuedBucket)>,
    state: AggregatorState,
    cost_tracker: CostTracker,
}

/// A request to insert samples of one project.
#[derive(Debug)]
pub struct InsertMetrics {
    pub project_key: ProjectKey,
    pub metrics: Vec<Metric>,
}

impl InsertMetrics {
    /// Creates a request from a project key and its samples.
    pub fn new(project_key: ProjectKey, metrics: Vec<Metric>) -> (r: Self)
        ensures
            r.project_key@ == project_key@,
            r.metrics@ == metrics@,
    {
        InsertMetrics { project_key, metrics }
    }
}

/// A request to merge pre-aggregated buckets of one project.
#[derive(Debug)]
pub struct MergeBuckets {
    pub project_key: ProjectKey,
    pub buckets: Vec<Bucket>,
}

impl MergeBuckets {
    /// Creates a request from a project key and its buckets.
    pub fn new(project_key: ProjectKey, buckets: Vec<Bucket>) -> (r: Self)
        ensures
            r.project_key@ == project_key@,
            r.buckets@ == buckets@,
    {
        MergeBuckets { project_key, buckets }
    }
}

/// A list of buckets of one project to be handed to the receiver.
#[derive(Clone, Debug)]
pub struct FlushBuckets {
    project_key: ProjectKey,
    buckets: Vec<Bucket>,
}

impl FlushBuckets {
    /// Creates a message from a project key and its buckets.
    pub fn new(project_key: ProjectKey, buckets: Vec<Bucket>) -> (r: Self)
        ensures
            r.spec_project() == project_key@,
            r.spec_buckets() == buckets@,
    {
        FlushBuckets { project_key, buckets }
    }

    pub closed spec fn spec_project(&self) -> Seq<char> {
        self.project_key@
    }

    pub closed spec fn spec_buckets(&self) -> Seq<Bucket> {
        self.buckets@
    }

    /// Consumes the message, returning its buckets.
    pub fn into_buckets(self) -> (r: Vec<Bucket>)
        ensures
            r@ == self.spec_buckets(),
    {
        self.buckets
    }

    /// The project the buckets belong to.
    pub fn project_key(&self) -> (r: ProjectKey)
        ensures
            r@ == self.spec_project(),
    {
        self.project_key.duplicate()
    }
}

impl Aggregator {
    /// The live entries, in the order they were created.
    pub closed spec fn live(&self) -> Seq<LiveEntry> {
        self.buckets@.map_values(|e: (BucketKey, QueuedBucket)| (e.0@, e.1.value, e.1.flush_at))
    }

    pub closed spec fn spec_config(&self) -> AggregatorConfig {
        self.config
    }

    pub closed spec fn spec_state(&self) -> AggregatorState {
        self.state
    }

    pub closed spec fn tracker(&self) -> CostTracker {
        self.cost_tracker
    }

    /// Keys unique and validated, values consistent with their keys, and the tracker holds
    /// exactly the costs of the live entries.
    pub open spec fn wf(&self) -> bool {
        let s = self.live();
        let cfg = self.spec_config();
        &&& cfg.wf()
        &&& forall|i: int, j: int| 0 <= i < j < s.len() ==> (#[trigger] s[i]).0 != (#[trigger] s[j]).0
        &&& forall|i: int| 0 <= i < s.len() ==> {
            &&& (#[trigger] s[i]).1.wf()
            &&& s[i].1.spec_ty() == s[i].0.ty
            &&& text_len(s[i].0.name) <= cfg.max_name_length
            &&& is_valid_mri(s[i].0.name)
            &&& s[i].0.timestamp % cfg.bucket_interval == 0
        }
        &&& self.tracker().wf()
        &&& self.tracker().total() == sum_costs(live_costs(s))
        &&& forall|p: Seq<char>| #[trigger] self.tracker().cost_of(p) == cost_for(live_costs(s), p)
    }

    /// Creates an empty aggregator.
    pub fn new(config: AggregatorConfig) -> (r: Self)
        requires
            config.wf(),
        ensures
            r.wf(),
            r.live().len() == 0,
            r.spec_config() == config,
            r.spec_state() == AggregatorState::Running,
    {
        let r = Aggregator {
            config,
            buckets: Vec::new(),
            state: AggregatorState::Running,
            cost_tracker: CostTracker::new(),
        };
        assert(r.live() =~= Seq::<LiveEntry>::empty());
        assert(live_costs(r.live()) =~= Seq::<ProjectCost>::empty());
        r
    }

    /// The number of live buckets.
    pub fn bucket_count(&self) -> (r: usize)
        ensures
            r == self.live().len(),
    {
        self.buckets.len()
    }

    /// The total cost tracked for all live buckets.
    pub fn total_cost(&self) -> (r: usize)
        ensures
            r == self.tracker().total(),
    {
        self.cost_tracker.total_cost()
    }

    /// The cost tracked for one project.
    pub fn project_cost(&self, project_key: &ProjectKey) -> (r: usize)
        requires
            self.wf(),
        ensures
            r == self.tracker().cost_of(project_key@),
    {
        self.cost_tracker.project_cost(project_key)
    }

    /// The number of projects with tracked cost.
    pub fn tracked_projects(&self) -> (r: usize)
        ensures
            r == self.tracker().project_count(),
    {
        self.cost_tracker.tracked_projects()
    }

    /// The live bucket at `index`: its key, value and deadline.
    pub fn bucket_at(&self, index: usize) -> (r: (&BucketKey, &BucketValue, u64))
        requires
            index < self.live().len(),
        ensures
            r.0@ == self.live()[index as int].0,
            *r.1 == self.live()[index as int].1,
            r.2 == self.live()[index as int].2,
    {
        let e = &self.buckets[index];
        (&e.0, &e.1.value, e.1.flush_at)
    }

    /// The current state.
    pub fn state(&self) -> (r: AggregatorState)
        ensures
            r == self.spec_state(),
    {
        self.state
    }

    /// Whether the aggregator still accepts metrics: the total limit is not reached.
    pub fn accepts_metrics(&self) -> (r: bool)
        ensures
            r == !totals_exceeded(self.tracker().total(), self.spec_config().max_total_bucket_bytes),
    {
        !self.cost_tracker.totals_cost_exceeded(self.config.max_total_bucket_bytes)
    }

    /// Handles a shutdown signal: with a timeout, the next sweep drains every bucket; without
    /// one, the signal is ignored.
    pub fn shutdown(&mut self, timeout: Option<u64>)
        ensures
            final(self).live() == old(self).live(),
            final(self).tracker() == old(self).tracker(),
            final(self).spec_config() == old(self).spec_config(),
            final(self).spec_state() == if timeout.is_some() {
                AggregatorState::ShuttingDown
            } else {
                old(self).spec_state()
            },
    {
        if timeout.is_some() {
            self.state = AggregatorState::ShuttingDown;
        }
    }

    /// Validates the metric name, then drops invalid tags and normalizes tag values.
    pub fn validate_bucket_key(key: BucketKey, config: &AggregatorConfig) -> (r: Result<BucketKey, AggregateMetricsError>)
        requires
            key.tags.wf(),
        ensures
            match validated_key(*config, key@) {
                Ok(k) => (r matches Ok(rk) && rk@ == k && rk.tags.wf()),
                Err(e) => r == Err::<BucketKey, AggregateMetricsError>(e),
            },
    {
        let key = Self::validate_metric_name(key, config)?;
        Ok(Self::validate_metric_tags(key, config))
    }

    /// Refuses names that are too long or not shaped like a metric resource identifier.
    pub fn validate_metric_name(key: BucketKey, config: &AggregatorConfig) -> (r: Result<BucketKey, AggregateMetricsError>)
        ensures
            text_len(key@.name) > config.max_name_length ==> r == Err::<BucketKey, AggregateMetricsError>(err(AggregateMetricsErrorKind::InvalidStringLength)),
            text_len(key@.name) <= config.max_name_length && !is_valid_mri(key@.name) ==> r == Err::<BucketKey, AggregateMetricsError>(err(AggregateMetricsErrorKind::InvalidCharacters)),
            text_len(key@.name) <= config.max_name_length && is_valid_mri(key@.name) ==> (r matches Ok(k) && k@ == key@ && k.tags == key.tags),
    {
        if byte_len(&key.metric_name) > config.max_name_length {
            return Err(error_of(AggregateMetricsErrorKind::InvalidStringLength));
        }
        if !valid_mri(key.metric_name.as_str()) {
            return Err(error_of(AggregateMetricsErrorKind::InvalidCharacters));
        }
        Ok(key)
    }

    /// Drops tags whose key or value is too long or whose key is malformed, and strips NUL
    /// characters from the values of the others.
    pub fn validate_metric_tags(key: BucketKey, config: &AggregatorConfig) -> (r: BucketKey)
        requires
            key.tags.wf(),
        ensures
            r@ == (KeyView { tags: validated_entries(key@.tags, config.max_tag_key_length, config.max_tag_value_length), ..key@ }),
            r.tags.wf(),
    {
        let tags = key.tags.validated(config.max_tag_key_length, config.max_tag_value_length);
        BucketKey { tags, ..key }
    }

    /// The index of the live entry with the given key.
    fn find(&self, key: &BucketKey) -> (r: Option<usize>)
        requires
            self.wf(),
        ensures
            r matches Some(i) ==> has_entry(self.live(), i as int, key@),
            r is None ==> forall|i: int| !has_entry(self.live(), i, key@),
    {
        let mut i: usize = 0;
        while i < self.buckets.len()
            invariant
                i <= self.live().len(),
                self.live().len() == self.buckets@.len(),
                forall|j: int| 0 <= j < i ==> !has_entry(self.live(), j, key@),
            decreases self.live().len() - i,
        {
            assert(self.live()[i as int].0 == self.buckets@[i as int].0@);
            if self.buckets[i].0.same(key) {
                return Some(i);
            }
            i = i + 1;
        }
        None
    }

    /// Merges a value into the bucket with the given key, creating the bucket when there is
    /// none. The key is validated first, then the cost limits are checked.
    pub fn merge_in(&mut self, key: BucketKey, value: MergeValue, now_ms: u64) -> (r: Result<(), AggregateMetricsError>)
        requires
            old(self).wf(),
            key.tags.wf(),
            value.wf(),
            value.spec_ty() == key@.ty,
            key@.timestamp % old(self).spec_config().bucket_interval == 0,
        ensures
            final(self).wf(),
            final(self).spec_config() == old(self).spec_config(),
            final(self).spec_state() == old(self).spec_state(),
            merge_in_spec(*old(self), key@, value, now_ms, r, *final(self)),
    {
        let ghost cfg = self.config;
        let ghost s = self.live();
        let key = Self::validate_bucket_key(key, &self.config)?;
        let ghost vk = key@;
        self.cost_tracker.check_limits_exceeded(
            &key.project_key,
            self.config.max_total_bucket_bytes,
            self.config.max_project_key_bucket_bytes,
        )?;
        proof {
            self.cost_tracker.lemma_wf(vk.project);
        }
        match self.find(&key) {
            Some(i) => {
                proof {
                    assert forall|j: int| has_entry(s, j, vk) implies j == i by {
                        if j != i as int {
                            if j < i {
                                assert(s[j].0 != s[i as int].0);
                            } else {
                                assert(s[i as int].0 != s[j].0);
                            }
                        }
                    }
                }
                self.merge_existing(i, &key, value)
            },
            None => self.insert_new(key, value, now_ms),
        }
    }

    /// Inserts a single sample, into the bucket of its aligned timestamp at `now_ms`.
    pub fn insert(&mut self, project_key: &ProjectKey, metric: Metric, now_ms: u64) -> (r: Result<(), AggregateMetricsError>)
        requires
            old(self).wf(),
            metric.tags.wf(),
        ensures
            final(self).wf(),
            final(self).spec_config() == old(self).spec_config(),
            final(self).spec_state() == old(self).spec_state(),
            insert_outcome(*old(self), project_key@, metric, now_ms, r, *final(self)),
    {
        let ts = self.config.get_bucket_timestamp(metric.timestamp, 0, UnixTimestamp::from_secs(now_ms / 1000))?;
        proof {
            crate::config::lemma_alignment(metric.timestamp.secs, 0, self.config.bucket_interval);
        }
        let ty = metric.value.ty();
        let key = BucketKey {
            project_key: project_key.duplicate(),
            timestamp: ts,
            metric_name: metric.name,
            metric_type: ty,
            metric_unit: metric.unit,
            tags: metric.tags,
        };
        self.merge_in(key, MergeValue::Sample(metric.value), now_ms)
    }

    /// Inserts samples in order and stops at the first refusal, whose error is returned.
    pub fn insert_metrics(&mut self, project_key: &ProjectKey, metrics: Vec<Metric>, now_ms: u64) -> (r: Result<(), AggregateMetricsError>)
        requires
            old(self).wf(),
            forall|i: int| 0 <= i < metrics@.len() ==> (#[trigger] metrics@[i]).tags.wf(),
        ensures
            final(self).wf(),
            final(self).spec_config() == old(self).spec_config(),
            final(self).spec_state() == old(self).spec_state(),
            exists|states: Seq<Aggregator>, n: int| insert_run(*old(self), *final(self), project_key@, metrics@, now_ms, r, states, n),
    {
        let ghost all = metrics@;
        let ghost mut states: Seq<Aggregator> = seq![*self];
        let mut rest = metrics;
        while rest.len() > 0
            invariant
                self.wf(),
                self.spec_config() == old(self).spec_config(),
                self.spec_state() == old(self).spec_state(),
                all == metrics@,
                forall|i: int| 0 <= i < rest@.len() ==> (#[trigger] rest@[i]).tags.wf(),
                rest@.len() <= all.len(),
                rest@ == all.skip(all.len() - rest@.len()),
                states.len() == all.len() - rest@.len() + 1,
                states[0] == *old(self),
                states.last() == *self,
                forall|k: int| 0 <= k < states.len() - 1 ==> #[trigger] insert_outcome(states[k], project_key@, all[k], now_ms, Ok(()), states[k + 1]),
            decreases rest@.len(),
        {
            let ghost before = rest@;
            let ghost prev = *self;
            let metric = rest.remove(0);
            assert forall|i: int| 0 <= i < rest@.len() implies (#[trigger] rest@[i]).tags.wf() by {
                assert(rest@[i] == before[i + 1]);
            }
            let ghost done = all.len() - before.len();
            assert(metric == all[done]);
            assert(rest@ =~= all.skip(all.len() - rest@.len()));
            let res = self.insert(project_key, metric, now_ms);
            match res {
                Ok(()) => {
                    proof {
                        let old_states = states;
                        states = states.push(*self);
                        assert forall|k: int| 0 <= k < states.len() - 1 implies #[trigger] insert_outcome(states[k], project_key@, all[k], now_ms, Ok(()), states[k + 1]) by {
                            if k < old_states.len() - 1 {
                                assert(states[k] == old_states[k] && states[k + 1] == old_states[k + 1]);
                            }
                        }
                    }
                },
                Err(e) => {
                    assert(insert_outcome(prev, project_key@, all[done], now_ms, res, *self));
                    assert(*self == prev) by {
                        assert(insert_outcome(prev, project_key@, all[done], now_ms, res, *self));
                    }
                    assert(states[done] == *self);
                    assert(res == Err::<(), AggregateMetricsError>(e));
                    assert(insert_run(*old(self), *self, project_key@, all, now_ms, Err::<(), AggregateMetricsError>(e), states, done));
                    return Err(e);
                },
            }
        }
        assert(states.len() == all.len() + 1);
        assert(insert_run(*old(self), *self, project_key@, all, now_ms, Ok(()), states, all.len() as int));
        Ok(())
    }

    /// Merges a pre-aggregated bucket into the bucket that holds the middle of its window.
    pub fn merge(&mut self, project_key: &ProjectKey, bucket: Bucket, now_ms: u64) -> (r: Result<(), AggregateMetricsError>)
        requires
            old(self).wf(),
            bucket.tags.wf(),
            bucket.value.wf(),
        ensures
            final(self).wf(),
            final(self).spec_config() == old(self).spec_config(),
            final(self).spec_state() == old(self).spec_state(),
            merge_outcome(*old(self), project_key@, bucket, now_ms, r, *final(self)),
    {
        let ts = self.config.get_bucket_timestamp(bucket.timestamp, bucket.width, UnixTimestamp::from_secs(now_ms / 1000))?;
        proof {
            crate::config::lemma_alignment(bucket.timestamp.secs, bucket.width, self.config.bucket_interval);
        }
        let ty = bucket.value.ty();
        let key = BucketKey {
            project_key: project_key.duplicate(),
            timestamp: ts,
            metric_name: bucket.name,
            metric_type: ty,
            metric_unit: bucket.unit,
            tags: bucket.tags,
        };
        self.merge_in(key, MergeValue::Bucket(bucket.value), now_ms)
    }

    /// Merges every bucket in order; a bucket that is refused is skipped and the others are
    /// still merged.
    pub fn merge_all(&mut self, project_key: &ProjectKey, buckets: Vec<Bucket>, now_ms: u64) -> (r: Result<(), AggregateMetricsError>)
        requires
            old(self).wf(),
            forall|i: int| 0 <= i < buckets@.len() ==> (#[trigger] buckets@[i]).tags.wf() && buckets@[i].value.wf(),
        ensures
            final(self).wf(),
            final(self).spec_config() == old(self).spec_config(),
            final(self).spec_state() == old(self).spec_state(),
            r is Ok,
            exists|states: Seq<Aggregator>| {
                &&& states.len() == buckets@.len() + 1
                &&& states[0] == *old(self)
                &&& states.last() == *final(self)
                &&& forall|k: int| 0 <= k < buckets@.len() ==> #[trigger] merge_step(states[k], project_key@, buckets@[k], now_ms, states[k + 1])
            },
    {
        let ghost all = buckets@;
        let ghost mut states: Seq<Aggregator> = seq![*self];
        let mut rest = buckets;
        while rest.len() > 0
            invariant
                self.wf(),
                self.spec_config() == old(self).spec_config(),
                self.spec_state() == old(self).spec_state(),
                forall|i: int| 0 <= i < rest@.len() ==> (#[trigger] rest@[i]).tags.wf() && rest@[i].value.wf(),
                rest@.len() <= all.len(),
                rest@ == all.skip(all.len() - rest@.len()),
                states.len() == all.len() - rest@.len() + 1,
                states[0] == *old(self),
                states.last() == *self,
                forall|k: int| 0 <= k < states.len() - 1 ==> #[trigger] merge_step(states[k], project_key@, all[k], now_ms, states[k + 1]),
            decreases rest@.len(),
        {
            let ghost before = rest@;
            let ghost prev = *self;
            let bucket = rest.remove(0);
            assert forall|i: int| 0 <= i < rest@.len() implies (#[trigger] rest@[i]).tags.wf() && rest@[i].value.wf() by {
                assert(rest@[i] == before[i + 1]);
            }
            let ghost done = all.len() - before.len();
            assert(bucket == all[done]);
            assert(rest@ =~= all.skip(all.len() - rest@.len()));
            let res = self.merge(project_key, bucket, now_ms);
            proof {
                assert(merge_outcome(prev, project_key@, all[done], now_ms, res, *self));
                let old_states = states;
                states = states.push(*self);
                assert forall|k: int| 0 <= k < states.len() - 1 implies #[trigger] merge_step(states[k], project_key@, all[k], now_ms, states[k + 1]) by {
                    if k < old_states.len() - 1 {
                        assert(states[k] == old_states[k] && states[k + 1] == old_states[k + 1]);
                    }
                }
            }
        }
        assert(states.len() == all.len() + 1);
        Ok(())
    }

    /// Removes the buckets that are due at `now_ms`, or all of them when shutting down, and
    /// returns them grouped by project.
    pub fn pop_flush_buckets(&mut self, now_ms: u64) -> (r: Vec<FlushBuckets>)
        requires
            old(self).wf(),
        ensures
            final(self).wf(),
            final(self).spec_config() == old(self).spec_config(),
            final(self).spec_state() == old(self).spec_state(),
            final(self).live() == old(self).live().filter(kept(old(self).spec_state(), now_ms)),
            old(self).spec_state() == AggregatorState::ShuttingDown ==> final(self).live().len() == 0,
            old(self).spec_state() == AggregatorState::ShuttingDown ==> final(self).tracker().total() == 0
                && final(self).tracker().project_count() == 0,
            group_count(r@) == old(self).live().len() - final(self).live().len(),
            distinct_projects(r@),
            forall|p: Seq<char>, b: Bucket| #[trigger] in_groups(r@, p, b) ==> exists|k: int|
                0 <= k < old(self).live().len() && due(old(self).spec_state(), old(self).live()[k].2, now_ms)
                    && old(self).live()[k].0.project == p && flushed_as(old(self).live()[k], old(self).spec_config().bucket_interval, b),
    {
        let force = match self.state {
            AggregatorState::ShuttingDown => true,
            AggregatorState::Running => false,
        };
        let ghost st = self.state;
        let ghost s0 = self.live();
        let bucket_interval = self.config.bucket_interval;
        let mut groups: Vec<FlushBuckets> = Vec::new();
        let mut i: usize = 0;
        assert(groups@ =~= Seq::<FlushBuckets>::empty());
        let ghost mut seen: int = 0;
        assert(s0.take(0).filter(kept(st, now_ms)) =~= Seq::<LiveEntry>::empty());
        while i < self.buckets.len()
            invariant
                self.wf(),
                self.spec_config() == old(self).spec_config(),
                self.spec_state() == st,
                force == (st == AggregatorState::ShuttingDown),
                0 <= seen <= s0.len(),
                i <= self.live().len(),
                self.live() == s0.take(seen).filter(kept(st, now_ms)) + s0.skip(seen),
                i == s0.take(seen).filter(kept(st, now_ms)).len(),
                bucket_interval == self.spec_config().bucket_interval,
                group_count(groups@) == seen - i,
                distinct_projects(groups@),
                forall|p: Seq<char>, b: Bucket| #[trigger] in_groups(groups@, p, b) ==> exists|k: int|
                    0 <= k < seen && due(st, s0[k].2, now_ms) && s0[k].0.project == p && flushed_as(s0[k], bucket_interval, b),
            decreases self.live().len() - i,
        {
            let ghost s = self.live();
            assert(s[i as int] == s0[seen]);
            assert(s0.take(seen + 1) =~= s0.take(seen).push(s0[seen]));
            if force || self.buckets[i].1.elapsed(now_ms) {
                let (key, queued) = self.remove_entry(i);
                let ghost t = self.live();
                proof {
                    lemma_filter_step(s0.take(seen), s0[seen], kept(st, now_ms));
                    assert(t =~= s0.take(seen + 1).filter(kept(st, now_ms)) + s0.skip(seen + 1));
                    seen = seen + 1;
                }
                let project_key = key.project_key.duplicate();
                let bucket = Bucket::from_parts(key, bucket_interval, queued.value);
                let ghost k = seen - 1;
                let ghost before = groups@;
                assert(flushed_as(s0[k], bucket_interval, bucket));
                assert(due(st, s0[k].2, now_ms));
                add_to_group(&mut groups, project_key, bucket);
                proof {
                    assert forall|p: Seq<char>, b: Bucket| #[trigger] in_groups(groups@, p, b) implies exists|k2: int|
                        0 <= k2 < seen && due(st, s0[k2].2, now_ms) && s0[k2].0.project == p && flushed_as(s0[k2], bucket_interval, b) by {
                        if !in_groups(before, p, b) {
                            assert(0 <= k < seen && due(st, s0[k].2, now_ms) && s0[k].0.project == p && flushed_as(s0[k], bucket_interval, b));
                        }
                    }
                }
            } else {
                proof {
                    lemma_filter_step(s0.take(seen), s0[seen], kept(st, now_ms));
                    assert(s =~= s0.take(seen + 1).filter(kept(st, now_ms)) + s0.skip(seen + 1));
                    seen = seen + 1;
                }
                i = i + 1;
            }
        }
        proof {
            assert(seen == s0.len()) by {
                if seen < s0.len() {
                    assert(self.live().len() > i);
                }
            }
            assert(s0.take(seen) =~= s0);
            assert(s0.skip(seen) =~= Seq::<LiveEntry>::empty());
            assert(self.live() =~= s0.filter(kept(st, now_ms)));
            if st == AggregatorState::ShuttingDown {
                assert(s0.all(|x: LiveEntry| !kept(st, now_ms)(x)));
                s0.lemma_all_neg_filter_empty(kept(st, now_ms));
                lemma_cost_conservation(*self);
            }
        }
        groups
    }

    /// Removes the live entry at index `i` and its cost from the tracker.
    fn remove_entry(&mut self, i: usize) -> (r: (BucketKey, QueuedBucket))
        requires
            old(self).wf(),
            i < old(self).live().len(),
        ensures
            final(self).wf(),
            final(self).spec_config() == old(self).spec_config(),
            final(self).spec_state() == old(self).spec_state(),
            final(self).live() == old(self).live().remove(i as int),
            (r.0@, r.1.value, r.1.flush_at) == old(self).live()[i as int],
    {
        let ghost s = self.live();
        let (key, queued) = self.buckets.remove(i);
        let ghost t = self.live();
        assert(t =~= s.remove(i as int));
        assert(s[i as int].1 == queued.value);
        assert(s[i as int].1.wf());
        let key_cost = key.cost();
        let value_cost = queued.value.cost();
        proof {
            let cs = live_costs(s);
            lemma_remove(cs, i as int, key@.project);
            assert(cs[i as int] == (key@.project, entry_cost(key@, queued.value)));
        }
        self.cost_tracker.subtract_cost(&key.project_key, key_cost);
        self.cost_tracker.subtract_cost(&key.project_key, value_cost);
        proof {
            let cs = live_costs(s);
            let ct = live_costs(t);
            assert(ct =~= cs.remove(i as int));
            assert forall|p: Seq<char>| #[trigger] self.cost_tracker.cost_of(p) == cost_for(ct, p) by {
                lemma_remove(cs, i as int, p);
            }
            lemma_remove(cs, i as int, key@.project);
            assert forall|a: int| 0 <= a < t.len() implies #[trigger] t[a] == s[if a < i { a } else { a + 1 }] by {}
            assert forall|a: int, b: int| 0 <= a < b < t.len() implies (#[trigger] t[a]).0 != (#[trigger] t[b]).0 by {
                assert(t[a] == s[if a < i { a } else { a + 1 }]);
                assert(t[b] == s[if b < i { b } else { b + 1 }]);
            }
        }
        (key, queued)
    }

    /// Merges a value into the live entry at index `i`.
    fn merge_existing(&mut self, i: usize, key: &BucketKey, value: MergeValue) -> (r: Result<(), AggregateMetricsError>)
        requires
            old(self).wf(),
            has_entry(old(self).live(), i as int, key@),
            value.wf(),
            value.spec_ty() == key@.ty,
        ensures
            final(self).wf(),
            final(self).spec_config() == old(self).spec_config(),
            final(self).spec_state() == old(self).spec_state(),
            existing_spec(old(self).live(), i as int, *old(self), value, r, *final(self)),
    {
        let ghost s = self.live();
        let ghost old_v = s[i as int].1;
        assert(self.buckets@[i as int].1.value == old_v);
        let mut merged = self.buckets[i].1.value.duplicate();
        let before = merged.cost();
        let res = match value {
            MergeValue::Bucket(b) => b.merge_into(&mut merged),
            MergeValue::Sample(m) => m.merge_into(&mut merged),
        };
        if res.is_err() {
            return res;
        }
        assert(merged_value(old_v, value, merged));
        let after = merged.cost();
        let added = after - before;
        if added > usize::MAX - self.cost_tracker.total_cost() {
            return Err(error_of(AggregateMetricsErrorKind::TotalLimitExceeded));
        }
        let (k, q) = self.buckets.remove(i);
        let ghost flush_at = q.flush_at;
        self.buckets.insert(i, (k, QueuedBucket::new(q.flush_at, merged)));
        let ghost t = self.live();
        assert(t =~= s.update(i as int, (key@, merged, flush_at)));
        self.cost_tracker.add_cost(&key.project_key, added);
        proof {
            let cs = live_costs(s);
            let ct = live_costs(t);
            assert(ct =~= cs.update(i as int, (cs[i as int].0, (cs[i as int].1 + added) as nat)));
            assert forall|p: Seq<char>| #[trigger] self.cost_tracker.cost_of(p) == cost_for(ct, p) by {
                lemma_update(cs, i as int, (cs[i as int].1 + added) as nat, p);
            }
            lemma_update(cs, i as int, (cs[i as int].1 + added) as nat, key@.project);
            assert forall|a: int, b: int| 0 <= a < b < t.len() implies (#[trigger] t[a]).0 != (#[trigger] t[b]).0 by {
                assert(s[a].0 != s[b].0);
            }
            assert forall|a: int| 0 <= a < t.len() implies (#[trigger] t[a]).1.wf() && t[a].1.spec_ty() == t[a].0.ty by {
                assert(s[a].1.wf());
            }
        }
        Ok(())
    }

    /// Appends a new live entry for a key that has none.
    fn insert_new(&mut self, key: BucketKey, value: MergeValue, now_ms: u64) -> (r: Result<(), AggregateMetricsError>)
        requires
            old(self).wf(),
            forall|j: int| !has_entry(old(self).live(), j, key@),
            value.wf(),
            value.spec_ty() == key@.ty,
            text_len(key@.name) <= old(self).spec_config().max_name_length,
            is_valid_mri(key@.name),
            key@.timestamp % old(self).spec_config().bucket_interval == 0,
        ensures
            final(self).wf(),
            final(self).spec_config() == old(self).spec_config(),
            final(self).spec_state() == old(self).spec_state(),
            fresh_spec(*old(self), key@, value, now_ms, r, *final(self)),
    {
        let ghost s = self.live();
        let ghost vk = key@;
        let flush_at = self.config.get_flush_time(key.timestamp, &key.project_key, now_ms);
        let bucket = match value {
            MergeValue::Bucket(b) => b,
            MergeValue::Sample(m) => BucketValue::from_metric(m),
        };
        assert(fresh_value(value, bucket));
        let key_cost = key.cost();
        let value_cost = bucket.cost();
        if value_cost > usize::MAX - key_cost {
            return Err(error_of(AggregateMetricsErrorKind::TotalLimitExceeded));
        }
        let added = key_cost + value_cost;
        if added > usize::MAX - self.cost_tracker.total_cost() {
            return Err(error_of(AggregateMetricsErrorKind::TotalLimitExceeded));
        }
        let project_key = key.project_key.duplicate();
        self.buckets.push((key, QueuedBucket::new(flush_at, bucket)));
        let ghost t = self.live();
        assert(t =~= s.push((vk, bucket, flush_at)));
        self.cost_tracker.add_cost(&project_key, added);
        proof {
            let cs = live_costs(s);
            let ct = live_costs(t);
            assert(ct =~= cs.push((vk.project, added as nat)));
            assert forall|p: Seq<char>| #[trigger] self.cost_tracker.cost_of(p) == cost_for(ct, p) by {
                lemma_push(cs, (vk.project, added as nat), p);
            }
            lemma_push(cs, (vk.project, added as nat), vk.project);
            assert forall|a: int, b: int| 0 <= a < b < t.len() implies (#[trigger] t[a]).0 != (#[trigger] t[b]).0 by {
                if b == s.len() {
                    assert(!has_entry(s, a, vk));
                } else {
                    assert(s[a].0 != s[b].0);
                }
            }
        }
        Ok(())
    }
}

/// Merging into the existing entry `i`: refused when a distribution's sample count would
/// overflow or the byte counters would; otherwise the entry's value is replaced by the merge.
pub open spec fn existing_spec(s: Seq<LiveEntry>, i: int, old: Aggregator, value: MergeValue, r: Result<(), AggregateMetricsError>, new: Aggregator) -> bool {
    &&& merge_overflows(s[i].1, value) ==> r == Err::<(), AggregateMetricsError>(err(AggregateMetricsErrorKind::SampleCountExceeded)) && new == old
    &&& r is Ok ==> exists|v: BucketValue| {
        &&& merged_value(s[i].1, value, v)
        &&& new.live() == s.update(i, (s[i].0, v, s[i].2))
        &&& new.tracker().total() == old.tracker().total() + sat_usize(v.spec_cost()) - sat_usize(s[i].1.spec_cost())
    }
    &&& r is Err ==> new == old && (merge_overflows(s[i].1, value) || r == Err::<(), AggregateMetricsError>(err(AggregateMetricsErrorKind::TotalLimitExceeded)))
    &&& !merge_overflows(s[i].1, value) && r is Err ==> exists|v: BucketValue| merged_value(s[i].1, value, v)
        && old.tracker().total() + sat_usize(v.spec_cost()) - sat_usize(s[i].1.spec_cost()) > usize::MAX
}

/// Appending a new entry for `vk`: refused only when the byte counters would overflow.
pub open spec fn fresh_spec(old: Aggregator, vk: KeyView, value: MergeValue, now_ms: u64, r: Result<(), AggregateMetricsError>, new: Aggregator) -> bool {
    let deadline = old.spec_config().spec_flush_time(vk.timestamp, encode_utf8(vk.project), now_ms);
    &&& r is Ok ==> exists|v: BucketValue| {
        &&& fresh_value(value, v)
        &&& new.live() == old.live().push((vk, v, deadline))
        &&& new.tracker().total() == old.tracker().total() + entry_cost(vk, v)
    }
    &&& r is Err ==> new == old && r == Err::<(), AggregateMetricsError>(err(AggregateMetricsErrorKind::TotalLimitExceeded))
        && exists|v: BucketValue| fresh_value(value, v) && old.tracker().total() + entry_cost(vk, v) > usize::MAX
}

/// Cost conservation: once no bucket is live, the tracker holds no cost, in total or for
/// any project.
pub proof fn lemma_cost_conservation(a: Aggregator)
    requires
        a.wf(),
        a.live().len() == 0,
    ensures
        a.tracker().total() == 0,
        a.tracker().project_count() == 0,
        forall|p: Seq<char>| a.tracker().cost_of(p) == 0,
{
    assert(live_costs(a.live()) =~= Seq::<ProjectCost>::empty());
    a.tracker().lemma_wf(Seq::empty());
    assert forall|p: Seq<char>| a.tracker().cost_of(p) == 0 by {
        a.tracker().lemma_wf(p);
    }
}

/// One merge never removes a live entry and adds at most one.
pub proof fn lemma_merge_step_len(old: Aggregator, project: Seq<char>, b: Bucket, now_ms: u64, new: Aggregator)
    requires
        merge_step(old, project, b, now_ms, new),
    ensures
        old.live().len() <= new.live().len() <= old.live().len() + 1,
{
    let r = choose|r: Result<(), AggregateMetricsError>| merge_outcome(old, project, b, now_ms, r, new);
    assert(merge_outcome(old, project, b, now_ms, r, new));
}

/// Merge-back bound: merging a list of buckets back, whichever are refused, keeps every live
/// entry and adds at most one entry per bucket. With the sweep handing out exactly as many
/// buckets as it removes, a receiver that rejects everything cannot make the live map grow
/// across a sweep and its merge-back.
pub proof fn lemma_merge_back_bound(project: Seq<char>, buckets: Seq<Bucket>, now_ms: u64, states: Seq<Aggregator>)
    requires
        states.len() == buckets.len() + 1,
        forall|k: int| 0 <= k < buckets.len() ==> #[trigger] merge_step(states[k], project, buckets[k], now_ms, states[k + 1]),
    ensures
        states[0].live().len() <= states.last().live().len() <= states[0].live().len() + buckets.len(),
    decreases buckets.len(),
{
    if buckets.len() > 0 {
        let n = buckets.len() - 1;
        assert(merge_step(states[n], project, buckets[n], now_ms, states[n + 1]));
        lemma_merge_step_len(states[n], project, buckets[n], now_ms, states[n + 1]);
        lemma_merge_back_bound(project, buckets.drop_last(), now_ms, states.drop_last());
    }
}

/// The entries that a sweep keeps.
pub open spec fn kept(state: AggregatorState, now_ms: u64) -> spec_fn(LiveEntry) -> bool {
    |e: LiveEntry| !due(state, e.2, now_ms)
}

proof fn lemma_filter_step(s: Seq<LiveEntry>, x: LiveEntry, p: spec_fn(LiveEntry) -> bool)
    ensures
        s.push(x).filter(p) == if p(x) { s.filter(p).push(x) } else { s.filter(p) },
{
    reveal(Seq::filter);
    assert(s.push(x).drop_last() =~= s);
}

/// What inserting the sample `m` of project `project` at `now_ms` does: refuse a timestamp
/// outside the acceptance window, else merge into the bucket of the aligned timestamp.
pub open spec fn insert_outcome(old: Aggregator, project: Seq<char>, m: Metric, now_ms: u64, r: Result<(), AggregateMetricsError>, new: Aggregator) -> bool {
    match old.spec_config().spec_bucket_timestamp(m.timestamp.secs, 0, now_ms / 1000) {
        None => r == Err::<(), AggregateMetricsError>(err(AggregateMetricsErrorKind::InvalidTimestamp)) && new == old,
        Some(ts) => merge_in_spec(old, metric_key(project, m, ts), MergeValue::Sample(m.value), now_ms, r, new),
    }
}

/// A run of insertions from `old` to `new`: the first `n` samples were inserted one after
/// the other; on `Err` the next one was refused and the run stopped there.
pub open spec fn insert_run(old: Aggregator, new: Aggregator, project: Seq<char>, metrics: Seq<Metric>, now_ms: u64, r: Result<(), AggregateMetricsError>, states: Seq<Aggregator>, n: int) -> bool {
    &&& 0 <= n <= metrics.len()
    &&& states.len() == n + 1
    &&& states[0] == old
    &&& states[n] == new
    &&& forall|k: int| 0 <= k < n ==> #[trigger] insert_outcome(states[k], project, metrics[k], now_ms, Ok(()), states[k + 1])
    &&& r is Ok ==> n == metrics.len()
    &&& r is Err ==> n < metrics.len() && insert_outcome(states[n], project, metrics[n], now_ms, r, states[n])
}

/// What merging the pre-aggregated bucket `b` of project `project` at `now_ms` does: refuse
/// a timestamp outside the acceptance window, else merge into the bucket of the aligned
/// timestamp.
pub open spec fn merge_outcome(old: Aggregator, project: Seq<char>, b: Bucket, now_ms: u64, r: Result<(), AggregateMetricsError>, new: Aggregator) -> bool {
    match old.spec_config().spec_bucket_timestamp(b.timestamp.secs, b.width, now_ms / 1000) {
        None => r == Err::<(), AggregateMetricsError>(err(AggregateMetricsErrorKind::InvalidTimestamp)) && new == old,
        Some(ts) => merge_in_spec(old, bucket_key(project, b, ts), MergeValue::Bucket(b.value), now_ms, r, new),
    }
}

/// One step of a bulk merge: the bucket was merged, or refused and the aggregator left as it
/// was.
pub open spec fn merge_step(old: Aggregator, project: Seq<char>, b: Bucket, now_ms: u64, new: Aggregator) -> bool {
    exists|r: Result<(), AggregateMetricsError>| merge_outcome(old, project, b, now_ms, r, new)
}

/// Whether an entry with deadline `flush_at` is flushed by a sweep at `now_ms`.
pub open spec fn due(state: AggregatorState, flush_at: u64, now_ms: u64) -> bool {
    state == AggregatorState::ShuttingDown || now_ms > flush_at
}

/// The key of a sample of a project at an aligned timestamp.
pub open spec fn metric_key(project: Seq<char>, m: Metric, ts: u64) -> KeyView {
    KeyView { project, timestamp: ts, name: m.name@, ty: m.value.spec_ty(), unit: m.unit@, tags: m.tags@ }
}

/// The key of a pre-aggregated bucket of a project at an aligned timestamp.
pub open spec fn bucket_key(project: Seq<char>, b: Bucket, ts: u64) -> KeyView {
    KeyView { project, timestamp: ts, name: b.name@, ty: b.value.spec_ty(), unit: b.unit@, tags: b.tags@ }
}

/// The number of buckets in all groups.
pub open spec fn group_count(gs: Seq<FlushBuckets>) -> nat
    decreases gs.len(),
{
    if gs.len() == 0 {
        0
    } else {
        group_count(gs.drop_last()) + gs.last().spec_buckets().len()
    }
}

/// Some group of project `p` holds bucket `b`.
pub open spec fn in_groups(gs: Seq<FlushBuckets>, p: Seq<char>, b: Bucket) -> bool {
    exists|x: int, y: int|
        0 <= x < gs.len() && 0 <= y < gs[x].spec_buckets().len() && gs[x].spec_project() == p
            && gs[x].spec_buckets()[y] == b
}

/// No two groups are of the same project.
pub open spec fn distinct_projects(gs: Seq<FlushBuckets>) -> bool {
    forall|a: int, b: int| 0 <= a < b < gs.len() ==> (#[trigger] gs[a]).spec_project() != (#[trigger] gs[b]).spec_project()
}

/// `b` is the output record of live entry `e` for buckets of width `interval`.
pub open spec fn flushed_as(e: LiveEntry, interval: u64, b: Bucket) -> bool {
    &&& b.timestamp.secs == e.0.timestamp
    &&& b.width == interval
    &&& b.name@ == e.0.name
    &&& b.unit@ == e.0.unit
    &&& b.value == e.1
    &&& b.tags@ == e.0.tags
}

proof fn lemma_group_count_update(gs: Seq<FlushBuckets>, j: int, g: FlushBuckets)
    requires
        0 <= j < gs.len(),
    ensures
        group_count(gs.update(j, g)) + gs[j].spec_buckets().len() == group_count(gs) + g.spec_buckets().len(),
    decreases gs.len(),
{
    if j == gs.len() - 1 {
        assert(gs.update(j, g).drop_last() =~= gs.drop_last());
    } else {
        assert(gs.update(j, g).drop_last() =~= gs.drop_last().update(j, g));
        lemma_group_count_update(gs.drop_last(), j, g);
    }
}

/// Adds a bucket to the group of its project, starting a group for a new project.
fn add_to_group(groups: &mut Vec<FlushBuckets>, project_key: ProjectKey, bucket: Bucket)
    ensures
        group_count(final(groups)@) == group_count(old(groups)@) + 1,
        distinct_projects(old(groups)@) ==> distinct_projects(final(groups)@),
        in_groups(final(groups)@, project_key@, bucket),
        forall|p: Seq<char>, b: Bucket| #[trigger] in_groups(final(groups)@, p, b) ==> in_groups(old(groups)@, p, b)
            || (p == project_key@ && b == bucket),
{
    let ghost gs = groups@;
    let ghost pk = project_key@;
    let ghost bk = bucket;
    let mut j: usize = 0;
    while j < groups.len()
        invariant
            j <= groups@.len(),
            groups@ == gs,
            gs == old(groups)@,
            bk == bucket,
            pk == project_key@,
            forall|x: int| 0 <= x < j ==> (#[trigger] gs[x]).spec_project() != pk,
        decreases groups@.len() - j,
    {
        assert(gs[j as int].spec_project() == groups@[j as int].project_key@);
        if groups[j].project_key.same(&project_key) {
            let old_g = groups.remove(j);
            let ghost old_buckets = old_g.buckets@;
            let gp = old_g.project_key;
            let mut gb = old_g.buckets;
            gb.push(bucket);
            assert(gb@ =~= old_buckets.push(bk));
            let g = FlushBuckets { project_key: gp, buckets: gb };
            groups.insert(j, g);
            proof {
                let ng = groups@;
                assert(ng =~= gs.update(j as int, g));
                assert(gs[j as int] == old_g);
                lemma_group_count_update(gs, j as int, g);
                assert(g.spec_buckets() =~= old_g.spec_buckets().push(bk));
                assert(ng[j as int].spec_buckets()[old_g.spec_buckets().len() as int] == bk);
                assert forall|p: Seq<char>, b: Bucket| #[trigger] in_groups(ng, p, b) implies in_groups(gs, p, b) || (p == pk && b == bk) by {
                    let (x, y) = choose|x: int, y: int|
                        0 <= x < ng.len() && 0 <= y < ng[x].spec_buckets().len() && ng[x].spec_project() == p
                            && ng[x].spec_buckets()[y] == b;
                    if x != j && !(p == pk && b == bk) {
                        assert(gs[x] == ng[x]);
                    } else if x == j && y < old_g.spec_buckets().len() {
                        assert(gs[x].spec_buckets()[y] == b);
                    }
                }
                if distinct_projects(gs) {
                    assert forall|a: int, b: int| 0 <= a < b < ng.len() implies (#[trigger] ng[a]).spec_project() != (#[trigger] ng[b]).spec_project() by {
                        assert(gs[a].spec_project() != gs[b].spec_project());
                    }
                }
            }
            return;
        }
        j = j + 1;
    }
    let mut list: Vec<Bucket> = Vec::new();
    list.push(bucket);
    let g = FlushBuckets { project_key, buckets: list };
    groups.push(g);
    proof {
        let ng = groups@;
        assert(ng =~= gs.push(g));
        assert(ng.drop_last() =~= gs);
        assert(ng[gs.len() as int].spec_buckets()[0] == bk);
        assert forall|p: Seq<char>, b: Bucket| #[trigger] in_groups(ng, p, b) implies in_groups(gs, p, b) || (p == pk && b == bk) by {
            let (x, y) = choose|x: int, y: int|
                0 <= x < ng.len() && 0 <= y < ng[x].spec_buckets().len() && ng[x].spec_project() == p
                    && ng[x].spec_buckets()[y] == b;
            if x < gs.len() {
                assert(gs[x] == ng[x]);
            }
        }
        if distinct_projects(gs) {
            assert forall|a: int, b: int| 0 <= a < b < ng.len() implies (#[trigger] ng[a]).spec_project() != (#[trigger] ng[b]).spec_project() by {
                if b == gs.len() {
                    assert(gs[a].spec_project() != pk);
                } else {
                    assert(gs[a].spec_project() != gs[b].spec_project());
                }
            }
        }
    }
}

/// What `merge_in` does: refuse an invalid key, then refuse at the cost limits, then merge the
/// value into the live entry with the validated key, or append a new entry with its deadline.
/// A merge that would overflow a distribution's sample count, or the byte counters, is refused
/// too. Refusals leave the aggregator as it was.
pub open spec fn merge_in_spec(
    old: Aggregator,
    key: KeyView,
    value: MergeValue,
    now_ms: u64,
    r: Result<(), AggregateMetricsError>,
    new: Aggregator,
) -> bool {
    let s = old.live();
    match validated_key(old.spec_config(), key) {
        Err(e) => r == Err::<(), AggregateMetricsError>(e) && new == old,
        Ok(vk) => {
            let adm = admission(
                old.tracker().total(),
                old.tracker().cost_of(vk.project),
                old.spec_config().max_total_bucket_bytes,
                old.spec_config().max_project_key_bucket_bytes,
            );
            if adm is Err {
                r == adm && new == old
            } else if exists|i: int| has_entry(s, i, vk) {
                existing_spec(s, choose|i: int| has_entry(s, i, vk), old, value, r, new)
            } else {
                fresh_spec(old, vk, value, now_ms, r, new)
            }
        },
    }
}

} // verus!
