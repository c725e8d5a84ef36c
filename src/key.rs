//! The identity of a bucket and its byte cost.
use vstd::prelude::*;

use crate::protocol::{MetricType, MetricUnit, ProjectKey, UnixTimestamp};
use crate::tags::{byte_len, same_text, tags_cost, text_len, TagEntry, Tags};

verus! {

/// Fixed size of a bucket key, in bytes.
pub const BUCKET_KEY_SIZE: usize = 112;

/// The logical content of a bucket key.
pub struct KeyView {
    pub project: Seq<char>,
    pub timestamp: u64,
    pub name: Seq<char>,
    pub ty: MetricType,
    pub unit: Option<Seq<char>>,
    pub tags: Seq<TagEntry>,
}

/// The identity of a bucket: project, aligned timestamp, name, type, unit and tags.
#[derive(Clone, Debug)]
pub struct BucketKey {
    pub project_key: ProjectKey,
    pub timestamp: UnixTimestamp,
    pub metric_name: String,
    pub metric_type: MetricType,
    pub metric_unit: MetricUnit,
    pub tags: Tags,
}

impl View for BucketKey {
    type V = KeyView;

    open spec fn view(&self) -> KeyView {
        KeyView {
            project: self.project_key@,
            timestamp: self.timestamp.secs,
            name: self.metric_name@,
            ty: self.metric_type,
            unit: self.metric_unit@,
            tags: self.tags@,
        }
    }
}

/// Estimated bytes of a key: the fixed size, the name's bytes and the bytes of every tag.
pub open spec fn key_cost(k: KeyView) -> nat {
    BUCKET_KEY_SIZE as nat + text_len(k.name) + tags_cost(k.tags)
}

impl BucketKey {
    /// Estimates the number of bytes needed to hold the key, held at `usize::MAX`.
    pub fn cost(&self) -> (r: usize)
        ensures
            r == crate::sat_usize(key_cost(self@)),
    {
        let name = byte_len(&self.metric_name);
        let tags = self.tags.cost();
        crate::sat_add_usize(crate::sat_add_usize(BUCKET_KEY_SIZE, name), tags)
    }

    /// Whether two keys are equal in every field.
    pub fn same(&self, other: &BucketKey) -> (r: bool)
        ensures
            r == (self@ == other@),
    {
        let r = self.project_key.same(&other.project_key) && self.timestamp.secs == other.timestamp.secs
            && same_text(self.metric_name.as_str(), other.metric_name.as_str())
            && self.metric_type == other.metric_type && self.metric_unit.same(&other.metric_unit)
            && self.tags.same(&other.tags);
        r
    }

    /// A copy of this key.
    pub fn duplicate(&self) -> (r: BucketKey)
        ensures
            r@ == self@,
    {
        BucketKey {
            project_key: self.project_key.duplicate(),
            timestamp: self.timestamp,
            metric_name: self.metric_name.clone(),
            metric_type: self.metric_type,
            metric_unit: self.metric_unit.duplicate(),
            tags: self.tags.duplicate(),
        }
    }
}

} // verus!
