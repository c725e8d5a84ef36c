//! Summary of gauge readings: minimum, maximum, sum, last reading and count.
use vstd::prelude::*;

verus! {

/// Type of a gauge reading.
pub type GaugeType = i64;

/// The sum of two readings, held at the bounds of `i64` where it would leave them.
pub open spec fn sat_add(a: int, b: int) -> i64 {
    if a + b > i64::MAX {
        i64::MAX
    } else if a + b < i64::MIN {
        i64::MIN
    } else {
        (a + b) as i64
    }
}

/// Integer quotient rounded toward zero, as Rust's `/` rounds.
pub open spec fn div_toward_zero(a: int, b: int) -> int
    recommends
        b > 0,
{
    if a >= 0 {
        a / b
    } else {
        -((-a) / b)
    }
}

pub open spec fn spec_max(a: i64, b: i64) -> i64 {
    if a >= b {
        a
    } else {
        b
    }
}

pub open spec fn spec_min(a: i64, b: i64) -> i64 {
    if a <= b {
        a
    } else {
        b
    }
}

/// Saturating addition of two counts.
pub open spec fn sat_add_u64(a: u64, b: u64) -> u64 {
    if a + b <= u64::MAX {
        (a + b) as u64
    } else {
        u64::MAX
    }
}

/// The snapshot after reading `value` into `g`.
pub open spec fn gauge_inserted(g: GaugeValue, value: i64) -> GaugeValue {
    GaugeValue {
        max: spec_max(g.max, value),
        min: spec_min(g.min, value),
        sum: sat_add(g.sum as int, value as int),
        last: value,
        count: sat_add_u64(g.count, 1),
    }
}

/// The snapshot after merging `b` into `a`: `last` comes from `b`.
pub open spec fn gauge_merged(a: GaugeValue, b: GaugeValue) -> GaugeValue {
    GaugeValue {
        max: spec_max(a.max, b.max),
        min: spec_min(a.min, b.min),
        sum: sat_add(a.sum as int, b.sum as int),
        last: b.last,
        count: sat_add_u64(a.count, b.count),
    }
}

/// Saturating addition of two readings.
pub fn saturating_add_i64(a: i64, b: i64) -> (r: i64)
    ensures
        r == sat_add(a as int, b as int),
{
    match a.checked_add(b) {
        Some(s) => s,
        None => {
            if a > 0 {
                i64::MAX
            } else {
                i64::MIN
            }
        },
    }
}

/// A snapshot of the readings reported into a gauge bucket.
#[derive(Clone, Copy, Debug, PartialEq, Eq)]
pub struct GaugeValue {
    /// The maximum reading.
    pub max: GaugeType,
    /// The minimum reading.
    pub min: GaugeType,
    /// The sum of all readings, saturating at the bounds of the type.
    pub sum: GaugeType,
    /// The last reading. This component is not commutative.
    pub last: GaugeType,
    /// The number of readings.
    pub count: u64,
}

impl GaugeValue {
    /// A snapshot is consistent when it has seen a reading and its bounds are ordered.
    pub open spec fn wf(&self) -> bool {
        &&& self.count >= 1
        &&& self.min <= self.max
        &&& self.min <= self.last <= self.max
    }

    pub open spec fn single_spec(value: GaugeType) -> GaugeValue {
        GaugeValue { max: value, min: value, sum: value, last: value, count: 1 }
    }

    /// Creates a gauge snapshot from a single reading.
    pub fn single(value: GaugeType) -> (r: Self)
        ensures
            r.max == value,
            r.min == value,
            r.sum == value,
            r.last == value,
            r.count == 1,
            r.wf(),
            r == GaugeValue::single_spec(value),
    {
        GaugeValue { max: value, min: value, sum: value, last: value, count: 1 }
    }

    /// Inserts a new reading into the gauge.
    pub fn insert(&mut self, value: GaugeType)
        ensures
            final(self).max == spec_max(old(self).max, value),
            final(self).min == spec_min(old(self).min, value),
            final(self).sum == sat_add(old(self).sum as int, value as int),
            final(self).last == value,
            final(self).count == if old(self).count < u64::MAX {
                (old(self).count + 1) as u64
            } else {
                u64::MAX
            },
            old(self).wf() ==> final(self).wf(),
            *final(self) == gauge_inserted(*old(self), value),
    {
        if value > self.max {
            self.max = value;
        }
        if value < self.min {
            self.min = value;
        }
        self.sum = saturating_add_i64(self.sum, value);
        self.last = value;
        self.count = self.count.saturating_add(1);
    }

    /// Merges another snapshot into this one; `last` is taken from `other`.
    pub fn merge(&mut self, other: Self)
        ensures
            final(self).max == spec_max(old(self).max, other.max),
            final(self).min == spec_min(old(self).min, other.min),
            final(self).sum == sat_add(old(self).sum as int, other.sum as int),
            final(self).last == other.last,
            final(self).count == if old(self).count + other.count <= u64::MAX {
                (old(self).count + other.count) as u64
            } else {
                u64::MAX
            },
            old(self).wf() && other.wf() ==> final(self).wf(),
            *final(self) == gauge_merged(*old(self), other),
    {
        if other.max > self.max {
            self.max = other.max;
        }
        if other.min < self.min {
            self.min = other.min;
        }
        self.sum = saturating_add_i64(self.sum, other.sum);
        self.last = other.last;
        self.count = self.count.saturating_add(other.count);
    }

    /// The average reading, rounded toward zero; `0` when no reading was seen.
    pub fn avg(&self) -> (r: GaugeType)
        ensures
            self.count == 0 ==> r == 0,
            self.count > 0 ==> r == div_toward_zero(self.sum as int, self.count as int),
    {
        if self.count == 0 {
            return 0;
        }
        let c = self.count as u128;
        if self.sum >= 0 {
            let q = (self.sum as u128) / c;
            assert(q <= self.sum) by (nonlinear_arith)
                requires q == (self.sum as u128) / c, c >= 1, self.sum >= 0;
            q as i64
        } else {
            let m: u128 = (0i128 - self.sum as i128) as u128;
            let q = m / c;
            assert(q <= m) by (nonlinear_arith)
                requires q == m / c, c >= 1;
            (0i128 - q as i128) as i64
        }
    }
}

/// Merging two gauges in either order gives the same maximum, minimum, sum and count; `last`
/// is that of the second operand.
pub proof fn lemma_gauge_merge_order(a: GaugeValue, b: GaugeValue)
    ensures
        gauge_merged(a, b).max == gauge_merged(b, a).max,
        gauge_merged(a, b).min == gauge_merged(b, a).min,
        gauge_merged(a, b).sum == gauge_merged(b, a).sum,
        gauge_merged(a, b).count == gauge_merged(b, a).count,
        gauge_merged(a, b).last == b.last,
        gauge_merged(b, a).last == a.last,
{
}

/// Counter increments folded into a running total with saturating addition.
pub open spec fn counter_fold(start: i64, s: Seq<i64>) -> i64
    decreases s.len(),
{
    if s.len() == 0 {
        start
    } else {
        sat_add(counter_fold(start, s.drop_last()) as int, s.last() as int)
    }
}

/// The exact sum of a sequence.
pub open spec fn seq_sum(s: Seq<i64>) -> int
    decreases s.len(),
{
    if s.len() == 0 {
        0
    } else {
        seq_sum(s.drop_last()) + s.last()
    }
}

/// Every prefix sum of `s` added to `start` stays within `i64`.
pub open spec fn no_overflow(start: i64, s: Seq<i64>) -> bool {
    forall|k: int| 0 <= k <= s.len() ==> i64::MIN <= start + #[trigger] seq_sum(s.take(k)) <= i64::MAX
}

/// While no partial sum leaves the range of `i64`, a counter holds the exact sum.
pub proof fn lemma_counter_exact(start: i64, s: Seq<i64>)
    requires
        no_overflow(start, s),
    ensures
        counter_fold(start, s) == start + seq_sum(s),
    decreases s.len(),
{
    if s.len() > 0 {
        let t = s.drop_last();
        assert forall|k: int| 0 <= k <= t.len() implies i64::MIN <= start + #[trigger] seq_sum(t.take(k)) <= i64::MAX by {
            assert(t.take(k) =~= s.take(k));
        }
        lemma_counter_exact(start, t);
        assert(s.take(s.len() as int) =~= s);
    }
}

proof fn lemma_sum_remove(s: Seq<i64>, i: int)
    requires
        0 <= i < s.len(),
    ensures
        seq_sum(s) == seq_sum(s.remove(i)) + s[i],
    decreases s.len(),
{
    if i < s.len() - 1 {
        assert(s.remove(i).drop_last() =~= s.drop_last().remove(i));
        lemma_sum_remove(s.drop_last(), i);
    } else {
        assert(s.remove(i) =~= s.drop_last());
    }
}

/// The exact sum does not depend on the order of the samples.
pub proof fn lemma_sum_order(s1: Seq<i64>, s2: Seq<i64>)
    requires
        s1.to_multiset() == s2.to_multiset(),
    ensures
        seq_sum(s1) == seq_sum(s2),
    decreases s1.len(),
{
    broadcast use vstd::seq_lib::group_to_multiset_ensures;
    if s1.len() == 0 {
        assert(s2.to_multiset().len() == 0);
        assert(s2.len() == 0);
    } else {
        let x = s1.last();
        assert(s1.to_multiset().count(x) > 0) by {
            assert(s1.contains(x)) by { assert(s1[s1.len() - 1] == x); }
        }
        assert(s2.contains(x));
        let j = choose|j: int| 0 <= j < s2.len() && s2[j] == x;
        let t1 = s1.drop_last();
        let t2 = s2.remove(j);
        assert(s1.remove(s1.len() - 1) =~= t1);
        assert(t1.to_multiset() =~= s1.to_multiset().remove(x));
        assert(t2.to_multiset() =~= s2.to_multiset().remove(x));
        lemma_sum_order(t1, t2);
        lemma_sum_remove(s2, j);
    }
}

/// Counter commutativity: two orders of the same increments give the same total, as long as
/// no partial sum of either order leaves the range of `i64`.
pub proof fn lemma_counter_commutative(start: i64, s1: Seq<i64>, s2: Seq<i64>)
    requires
        s1.to_multiset() == s2.to_multiset(),
        no_overflow(start, s1),
        no_overflow(start, s2),
    ensures
        counter_fold(start, s1) == counter_fold(start, s2),
        counter_fold(start, s1) == start + seq_sum(s1),
{
    lemma_counter_exact(start, s1);
    lemma_counter_exact(start, s2);
    lemma_sum_order(s1, s2);
}

} // verus!
