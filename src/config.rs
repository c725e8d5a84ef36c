//! Configuration of the aggregator, timestamp alignment and flush deadlines.
use vstd::prelude::*;
use vstd::utf8::encode_utf8;

use crate::error::{err, error_of, AggregateMetricsError, AggregateMetricsErrorKind};
use crate::gauge::sat_add_u64;
use crate::protocol::{ProjectKey, UnixTimestamp};

verus! {

/// The largest bucket interval, in seconds, whose length in milliseconds fits a `u64`.
pub const MAX_BUCKET_INTERVAL: u64 = 18446744073709551;

/// The FNV-1a offset basis for 32 bits.
pub const FNV_BASIS: u32 = 0x811c9dc5;

/// The FNV-1a prime for 32 bits.
pub const FNV_PRIME: u32 = 0x1000193;

/// The 32-bit FNV-1a hash of `bytes`.
pub open spec fn fnv1a_32(bytes: Seq<u8>) -> u32
    decreases bytes.len(),
{
    if bytes.len() == 0 {
        FNV_BASIS
    } else {
        (((fnv1a_32(bytes.drop_last()) ^ (bytes.last() as u32)) as int * FNV_PRIME as int)
            % 0x1_0000_0000) as u32
    }
}

/// Relies on hash32's `FnvHasher`: its `write` folds each byte into the state with xor and a
/// wrapping multiplication by the FNV prime, starting from the FNV offset basis, and `finish`
/// returns the state.
#[verifier::external_body]
fn fnv1a_hash(bytes: &[u8]) -> (r: u32)
    ensures
        r == fnv1a_32(bytes@),
{
    let mut hasher = hash32::FnvHasher::default();
    hash32::Hasher::write(&mut hasher, bytes);
    hash32::Hasher::finish(&hasher)
}

/// Parameters of the aggregator.
#[derive(Clone, Copy, Debug, PartialEq, Eq, Structural)]
pub struct AggregatorConfig {
    /// Width of the time buckets in seconds.
    pub bucket_interval: u64,
    /// Seconds to wait after a bucket's window before flushing a real-time bucket.
    pub initial_delay: u64,
    /// Seconds to wait before flushing a backdated bucket.
    pub debounce_delay: u64,
    /// Age in seconds of the oldest accepted bucket timestamp.
    pub max_secs_in_past: u64,
    /// Seconds a bucket timestamp may lie in the future.
    pub max_secs_in_future: u64,
    /// Longest accepted metric name, in bytes.
    pub max_name_length: usize,
    /// Longest accepted tag key, in bytes.
    pub max_tag_key_length: usize,
    /// Longest accepted tag value, in bytes.
    pub max_tag_value_length: usize,
    /// Byte budget of all buckets together; `None` for no limit.
    pub max_total_bucket_bytes: Option<usize>,
    /// Byte budget of the buckets of one project; `None` for no limit.
    pub max_project_key_bucket_bytes: Option<usize>,
}

/// `a - b`, held at 0.
pub open spec fn sat_sub_u64(a: u64, b: u64) -> u64 {
    if a >= b {
        (a - b) as u64
    } else {
        0
    }
}

/// The middle of an incoming bucket: `timestamp + width / 2`, held at `u64::MAX`.
pub open spec fn bucket_center(timestamp: u64, width: u64) -> u64 {
    sat_add_u64(timestamp, width / 2)
}

/// The start of the output bucket that holds `center`.
pub open spec fn align(center: u64, interval: u64) -> u64
    recommends
        interval > 0,
{
    ((center / interval) * interval) as u64
}

impl AggregatorConfig {
    /// Bucket widths are positive and their length in milliseconds fits a `u64`.
    pub open spec fn wf(&self) -> bool {
        0 < self.bucket_interval <= MAX_BUCKET_INTERVAL
    }

    /// The aligned timestamp for an incoming bucket, or `None` when it falls outside the
    /// acceptance window around `now`.
    pub open spec fn spec_bucket_timestamp(&self, timestamp: u64, width: u64, now: u64) -> Option<u64> {
        let aligned = align(bucket_center(timestamp, width), self.bucket_interval);
        if aligned < sat_sub_u64(now, self.max_secs_in_past) || aligned > sat_add_u64(
            now,
            self.max_secs_in_future,
        ) {
            None
        } else {
            Some(aligned)
        }
    }

    /// The deadline, in milliseconds since the epoch, of a new bucket with aligned timestamp
    /// `ts` of the project whose key has bytes `key`, created at `now_ms`.
    pub open spec fn spec_flush_time(&self, ts: u64, key: Seq<u8>, now_ms: u64) -> u64 {
        let initial = (ts + self.bucket_interval + self.initial_delay) * 1000;
        let shift = fnv1a_32(key) as int % (self.bucket_interval * 1000);
        if initial + shift <= u64::MAX && initial > now_ms {
            (initial + shift) as u64
        } else {
            sat_add_u64(now_ms, sat_mul_1000(self.debounce_delay))
        }
    }

    /// The deadline is a real-time one: the bucket's initial flush is still ahead of `now_ms`.
    pub open spec fn is_real_time(&self, ts: u64, key: Seq<u8>, now_ms: u64) -> bool {
        let initial = (ts + self.bucket_interval + self.initial_delay) * 1000;
        let shift = fnv1a_32(key) as int % (self.bucket_interval * 1000);
        initial + shift <= u64::MAX && initial > now_ms
    }

    /// Determines the target bucket for an incoming bucket timestamp and width: the output
    /// bucket that holds the middle of the incoming one. Fails if it lies too far in the past
    /// or the future of `now`.
    pub fn get_bucket_timestamp(&self, timestamp: UnixTimestamp, bucket_width: u64, now: UnixTimestamp) -> (r: Result<UnixTimestamp, AggregateMetricsError>)
        requires
            self.wf(),
        ensures
            match self.spec_bucket_timestamp(timestamp.secs, bucket_width, now.secs) {
                Some(t) => r == Ok::<UnixTimestamp, AggregateMetricsError>(UnixTimestamp { secs: t }),
                None => r == Err::<UnixTimestamp, AggregateMetricsError>(err(AggregateMetricsErrorKind::InvalidTimestamp)),
            },
    {
        let now = now.as_secs();
        let min_timestamp = now.saturating_sub(self.max_secs_in_past);
        let max_timestamp = now.saturating_add(self.max_secs_in_future);
        let ts = timestamp.as_secs().saturating_add(bucket_width / 2);
        let q = ts / self.bucket_interval;
        assert(q * self.bucket_interval <= ts) by (nonlinear_arith)
            requires q == ts / self.bucket_interval, self.bucket_interval > 0;
        let aligned = q * self.bucket_interval;
        if aligned < min_timestamp || aligned > max_timestamp {
            return Err(error_of(AggregateMetricsErrorKind::InvalidTimestamp));
        }
        Ok(UnixTimestamp::from_secs(aligned))
    }

    /// The instant, in milliseconds since the epoch, at which a new bucket should be flushed.
    ///
    /// Real-time buckets are flushed `initial_delay` after their window ends, shifted by a
    /// fixed per-project amount below one bucket interval. Backdated buckets, and those whose
    /// deadline does not fit, are flushed `debounce_delay` after `now_ms`.
    pub fn get_flush_time(&self, bucket_timestamp: UnixTimestamp, project_key: &ProjectKey, now_ms: u64) -> (r: u64)
        requires
            self.wf(),
        ensures
            r == self.spec_flush_time(bucket_timestamp.secs, encode_utf8(project_key@), now_ms),
    {
        let interval_ms = self.bucket_interval * 1000;
        let debounce = now_ms.saturating_add(saturating_mul_1000(self.debounce_delay));
        let end = match bucket_timestamp.as_secs().checked_add(self.bucket_interval) {
            Some(e) => e,
            None => return debounce,
        };
        let start = match end.checked_add(self.initial_delay) {
            Some(s) => s,
            None => return debounce,
        };
        let initial = match start.checked_mul(1000) {
            Some(i) => i,
            None => return debounce,
        };
        if initial <= now_ms {
            return debounce;
        }
        let hash = fnv1a_hash(project_key.as_bytes());
        let shift = (hash as u64) % interval_ms;
        match initial.checked_add(shift) {
            Some(t) => t,
            None => debounce,
        }
    }
}

/// `secs * 1000`, held at `u64::MAX`.
pub open spec fn sat_mul_1000(secs: u64) -> u64 {
    if secs * 1000 <= u64::MAX {
        (secs * 1000) as u64
    } else {
        u64::MAX
    }
}

fn saturating_mul_1000(secs: u64) -> (r: u64)
    ensures
        r == sat_mul_1000(secs),
{
    match secs.checked_mul(1000) {
        Some(m) => m,
        None => u64::MAX,
    }
}

impl Default for AggregatorConfig {
    fn default() -> (r: Self)
        ensures
            r.bucket_interval == 10,
            r.initial_delay == 30,
            r.debounce_delay == 10,
            r.max_secs_in_past == 432000,
            r.max_secs_in_future == 60,
            r.max_name_length == 200,
            r.max_tag_key_length == 200,
            r.max_tag_value_length == 200,
            r.max_total_bucket_bytes is None,
            r.max_project_key_bucket_bytes is None,
    {
        AggregatorConfig {
            bucket_interval: 10,
            initial_delay: 30,
            debounce_delay: 10,
            max_secs_in_past: 5 * 24 * 60 * 60,
            max_secs_in_future: 60,
            max_name_length: 200,
            max_tag_key_length: 200,
            max_tag_value_length: 200,
            max_total_bucket_bytes: None,
            max_project_key_bucket_bytes: None,
        }
    }
}

/// The aligned timestamp is a multiple of the interval, and lies within one interval at or
/// below the middle of the incoming bucket.
pub proof fn lemma_alignment(timestamp: u64, width: u64, interval: u64)
    requires
        interval > 0,
    ensures
        align(bucket_center(timestamp, width), interval) % interval == 0,
        bucket_center(timestamp, width) - interval + 1 <= align(bucket_center(timestamp, width), interval),
        align(bucket_center(timestamp, width), interval) <= bucket_center(timestamp, width),
{
    let c = bucket_center(timestamp, width) as int;
    let i = interval as int;
    let q = c / i;
    assert(q * i <= c && c < q * i + i && q >= 0) by (nonlinear_arith)
        requires q == c / i, i > 0, c >= 0;
    assert((q * i) % i == 0) by (nonlinear_arith)
        requires i > 0, q >= 0;
}

/// For a fixed configuration and project, a real-time deadline exceeds the end of the bucket's
/// initial delay by the same amount for every bucket: less than one bucket interval.
pub proof fn lemma_jitter_determinism(cfg: AggregatorConfig, key: Seq<u8>, t1: u64, t2: u64, now1: u64, now2: u64)
    requires
        cfg.wf(),
        cfg.is_real_time(t1, key, now1),
        cfg.is_real_time(t2, key, now2),
    ensures
        cfg.spec_flush_time(t1, key, now1) - (t1 + cfg.bucket_interval + cfg.initial_delay) * 1000
            == cfg.spec_flush_time(t2, key, now2) - (t2 + cfg.bucket_interval + cfg.initial_delay) * 1000,
        0 <= cfg.spec_flush_time(t1, key, now1) - (t1 + cfg.bucket_interval + cfg.initial_delay) * 1000
            < cfg.bucket_interval * 1000,
{
}

/// A flushed bucket, whose timestamp is aligned and whose width is the interval, is aligned
/// back to its own timestamp when merged again.
pub proof fn lemma_flushed_bucket_realigns(ts: u64, interval: u64)
    requires
        interval > 0,
        ts % interval == 0,
        ts + interval / 2 <= u64::MAX,
    ensures
        align(bucket_center(ts, interval), interval) == ts,
{
    let c: int = ts as int + (interval / 2) as int;
    let i: int = interval as int;
    let t: int = ts as int;
    let h: int = (interval / 2) as int;
    assert(t == (t / i) * i) by (nonlinear_arith)
        requires t % i == 0, i > 0;
    assert(c / i == t / i) by (nonlinear_arith)
        requires c == t + h, t == (t / i) * i, 0 <= h < i, i > 0;
}

} // verus!
