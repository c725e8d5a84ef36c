//! Distributions: a multiset of samples, stored as ascending unique values with counts.
use vstd::multiset::Multiset;
use vstd::prelude::*;

use crate::protocol::DistributionType;

verus! {

broadcast use vstd::multiset::group_multiset_axioms;

/// Type for counting duplicates in distributions.
pub type Count = u32;

/// `n` copies of `v`.
pub open spec fn repeat(v: i64, n: nat) -> Multiset<i64>
    decreases n,
{
    if n == 0 {
        Multiset::empty()
    } else {
        repeat(v, (n - 1) as nat).insert(v)
    }
}

/// The samples that a list of (value, count) entries stands for.
pub open spec fn entries_multiset(s: Seq<(i64, u32)>) -> Multiset<i64>
    decreases s.len(),
{
    if s.len() == 0 {
        Multiset::empty()
    } else {
        entries_multiset(s.drop_last()).add(repeat(s.last().0, s.last().1 as nat))
    }
}

/// The total count of the entries for `v`.
pub open spec fn entries_count(s: Seq<(i64, u32)>, v: i64) -> nat
    decreases s.len(),
{
    if s.len() == 0 {
        0
    } else {
        entries_count(s.drop_last(), v) + if s.last().0 == v {
            s.last().1 as nat
        } else {
            0
        }
    }
}

/// Values strictly ascending, every count positive.
pub open spec fn sorted_entries(s: Seq<(i64, u32)>) -> bool {
    &&& forall|i: int, j: int| 0 <= i < j < s.len() ==> (#[trigger] s[i]).0 < (#[trigger] s[j]).0
    &&& forall|i: int| 0 <= i < s.len() ==> (#[trigger] s[i]).1 > 0
}

/// Non-decreasing order.
pub open spec fn ascending(s: Seq<i64>) -> bool {
    forall|i: int, j: int| 0 <= i < j < s.len() ==> s[i] <= s[j]
}

pub proof fn lemma_repeat(v: i64, n: nat)
    ensures
        repeat(v, n).len() == n,
        forall|x: i64| #[trigger] repeat(v, n).count(x) == if x == v { n } else { 0 },
    decreases n,
{
    if n > 0 {
        lemma_repeat(v, (n - 1) as nat);
    }
}

pub proof fn lemma_entries_count(s: Seq<(i64, u32)>)
    ensures
        forall|x: i64| #[trigger] entries_multiset(s).count(x) == entries_count(s, x),
    decreases s.len(),
{
    if s.len() > 0 {
        lemma_entries_count(s.drop_last());
        lemma_repeat(s.last().0, s.last().1 as nat);
        assert forall|x: i64| #[trigger] entries_multiset(s).count(x) == entries_count(s, x) by {
            assert(entries_multiset(s).count(x) == entries_multiset(s.drop_last()).count(x) + repeat(
                s.last().0,
                s.last().1 as nat,
            ).count(x));
        }
    }
}

pub proof fn lemma_entries_len(s: Seq<(i64, u32)>, i: int)
    requires
        0 <= i <= s.len(),
    ensures
        entries_multiset(s.take(i)).len() <= entries_multiset(s).len(),
    decreases s.len(),
{
    if i < s.len() {
        assert(s.drop_last().take(i) =~= s.take(i));
        lemma_entries_len(s.drop_last(), i);
        lemma_repeat(s.last().0, s.last().1 as nat);
    } else {
        assert(s.take(i) =~= s);
    }
}

pub proof fn lemma_count_update(s: Seq<(i64, u32)>, i: int, c: u32, x: i64)
    requires
        0 <= i < s.len(),
    ensures
        entries_count(s.update(i, (s[i].0, c)), x) + (if s[i].0 == x { s[i].1 as nat } else { 0 })
            == entries_count(s, x) + (if s[i].0 == x { c as nat } else { 0 }),
    decreases s.len(),
{
    let t = s.update(i, (s[i].0, c));
    if i == s.len() - 1 {
        assert(t.drop_last() =~= s.drop_last());
    } else {
        assert(t.drop_last() =~= s.drop_last().update(i, (s[i].0, c)));
        lemma_count_update(s.drop_last(), i, c, x);
    }
}

pub proof fn lemma_count_insert(s: Seq<(i64, u32)>, p: int, e: (i64, u32), x: i64)
    requires
        0 <= p <= s.len(),
    ensures
        entries_count(s.insert(p, e), x) == entries_count(s, x) + (if e.0 == x { e.1 as nat } else { 0 }),
    decreases s.len(),
{
    let t = s.insert(p, e);
    if p == s.len() {
        assert(t.drop_last() =~= s);
    } else {
        assert(t.drop_last() =~= s.drop_last().insert(p, e));
        lemma_count_insert(s.drop_last(), p, e, x);
    }
}

/// In a sorted list, the count of a present value is its entry's count, of an absent one 0.
pub proof fn lemma_count_sorted(s: Seq<(i64, u32)>, x: i64)
    requires
        sorted_entries(s),
    ensures
        forall|i: int| 0 <= i < s.len() && (#[trigger] s[i]).0 == x ==> entries_count(s, x) == s[i].1,
        (forall|i: int| 0 <= i < s.len() ==> (#[trigger] s[i]).0 != x) ==> entries_count(s, x) == 0,
    decreases s.len(),
{
    if s.len() > 0 {
        let t = s.drop_last();
        assert(sorted_entries(t)) by {
            assert forall|i: int, j: int| 0 <= i < j < t.len() implies (#[trigger] t[i]).0 < (#[trigger] t[j]).0 by {
                assert(t[i] == s[i] && t[j] == s[j]);
            }
            assert forall|i: int| 0 <= i < t.len() implies (#[trigger] t[i]).1 > 0 by {
                assert(t[i] == s[i]);
            }
        }
        lemma_count_sorted(t, x);
        assert forall|i: int| 0 <= i < s.len() && (#[trigger] s[i]).0 == x implies entries_count(s, x) == s[i].1 by {
            if i < s.len() - 1 {
                assert(t[i] == s[i]);
                assert(s[i].0 < s[s.len() - 1].0);
            } else {
                assert forall|k: int| 0 <= k < t.len() implies (#[trigger] t[k]).0 != x by {
                    assert(t[k] == s[k]);
                    assert(s[k].0 < s[i].0);
                }
            }
        }
        if forall|i: int| 0 <= i < s.len() ==> (#[trigger] s[i]).0 != x {
            assert forall|k: int| 0 <= k < t.len() implies (#[trigger] t[k]).0 != x by {
                assert(t[k] == s[k]);
            }
            assert(s[s.len() - 1].0 != x);
        }
    }
}

/// A distribution of values within a bucket: each sample value with the number of times it
/// was reported.
#[derive(Clone, Debug, PartialEq, Eq)]
pub struct DistributionValue {
    values: Vec<(DistributionType, Count)>,
    length: Count,
}

impl View for DistributionValue {
    type V = Multiset<i64>;

    closed spec fn view(&self) -> Multiset<i64> {
        entries_multiset(self.values@)
    }
}

impl DistributionValue {
    /// The unique values with their counts, ascending.
    pub closed spec fn entries(&self) -> Seq<(i64, u32)> {
        self.values@
    }

    /// Entries sorted and unique, and the cached length is the number of samples.
    pub closed spec fn wf(&self) -> bool {
        &&& sorted_entries(self.values@)
        &&& self.length as nat == entries_multiset(self.values@).len()
    }

    /// Makes a new, empty distribution.
    pub fn new() -> (r: Self)
        ensures
            r.wf(),
            r@ == Multiset::<i64>::empty(),
    {
        DistributionValue { values: Vec::new(), length: 0 }
    }

    /// Returns the number of samples.
    pub fn len(&self) -> (r: Count)
        requires
            self.wf(),
        ensures
            r == self@.len(),
    {
        self.length
    }

    /// Returns `true` if there are no samples.
    pub fn is_empty(&self) -> (r: bool)
        requires
            self.wf(),
        ensures
            r == (self@.len() == 0),
    {
        self.length == 0
    }

    /// The number of unique sample values.
    pub fn unique_len(&self) -> (r: usize)
        ensures
            r == self.entries().len(),
    {
        self.values.len()
    }

    /// The first index whose value is not below `v`, and whether it holds `v`.
    fn find(&self, v: DistributionType) -> (r: (usize, bool))
        requires
            self.wf(),
        ensures
            r.0 <= self.entries().len(),
            forall|i: int| 0 <= i < r.0 ==> (#[trigger] self.entries()[i]).0 < v,
            r.0 < self.entries().len() ==> self.entries()[r.0 as int].0 >= v,
            r.1 == (r.0 < self.entries().len() && self.entries()[r.0 as int].0 == v),
    {
        let mut i: usize = 0;
        while i < self.values.len()
            invariant
                i <= self.values@.len(),
                forall|k: int| 0 <= k < i ==> (#[trigger] self.values@[k]).0 < v,
            decreases self.values@.len() - i,
        {
            if self.values[i].0 >= v {
                return (i, self.values[i].0 == v);
            }
            i = i + 1;
        }
        (i, false)
    }

    /// Adds a value to the distribution; returns how often it occurs afterwards.
    pub fn insert(&mut self, value: DistributionType) -> (r: Count)
        requires
            old(self).wf(),
            old(self)@.len() < u32::MAX,
        ensures
            final(self).wf(),
            final(self)@ == old(self)@.insert(value),
            r == final(self)@.count(value),
            final(self).entries().len() >= old(self).entries().len(),
    {
        proof {
            lemma_repeat(value, 1);
            assert(old(self)@.add(repeat(value, 1)) =~= old(self)@.insert(value));
        }
        self.insert_multi(value, 1)
    }

    /// Adds a value `count` times; returns how often it occurs afterwards, or 0 when `count`
    /// is 0 (no entry is made then).
    pub fn insert_multi(&mut self, value: DistributionType, count: Count) -> (r: Count)
        requires
            old(self).wf(),
            old(self)@.len() + count <= u32::MAX,
        ensures
            final(self).wf(),
            final(self)@ == old(self)@.add(repeat(value, count as nat)),
            r == if count == 0 { 0 } else { final(self)@.count(value) },
            final(self).entries().len() >= old(self).entries().len(),
    {
        let ghost s = self.values@;
        proof {
            lemma_repeat(value, count as nat);
            lemma_entries_count(s);
        }
        if count == 0 {
            assert(old(self)@.add(repeat(value, 0)) =~= old(self)@);
            return 0;
        }
        let (pos, found) = self.find(value);
        let new_count: Count;
        if found {
            let c = self.values[pos].1;
            proof {
                lemma_count_sorted(s, value);
            }
            assert(c as nat == old(self)@.count(value));
            assert(old(self)@.count(value) <= old(self)@.len());
            new_count = c + count;
            self.values.set(pos, (value, new_count));
            proof {
                let t = self.values@;
                assert(t == s.update(pos as int, (s[pos as int].0, new_count)));
                assert forall|x: i64| entries_count(t, x) == entries_count(s, x) + (if x == value { count as nat } else { 0 }) by {
                    lemma_count_update(s, pos as int, new_count, x);
                }
                assert(sorted_entries(t)) by {
                    assert forall|i: int, j: int| 0 <= i < j < t.len() implies (#[trigger] t[i]).0 < (#[trigger] t[j]).0 by {
                        assert(s[i].0 < s[j].0);
                    }
                }
            }
        } else {
            new_count = count;
            self.values.insert(pos, (value, count));
            proof {
                let t = self.values@;
                assert(t == s.insert(pos as int, (value, count)));
                assert forall|x: i64| entries_count(t, x) == entries_count(s, x) + (if x == value { count as nat } else { 0 }) by {
                    lemma_count_insert(s, pos as int, (value, count), x);
                }
                assert(sorted_entries(t)) by {
                    assert forall|i: int, j: int| 0 <= i < j < t.len() implies (#[trigger] t[i]).0 < (#[trigger] t[j]).0 by {
                        if j < pos {
                            assert(t[i] == s[i] && t[j] == s[j]);
                        } else if j == pos {
                            assert(t[i] == s[i]);
                        } else if i < pos {
                            assert(t[i] == s[i] && t[j] == s[j - 1]);
                            assert(s[pos as int].0 > value);
                        } else if i == pos {
                            assert(t[j] == s[j - 1]);
                            assert(s[pos as int].0 > value);
                            if j - 1 > pos {
                                assert(s[pos as int].0 < s[j - 1].0);
                            }
                        } else {
                            assert(t[i] == s[i - 1] && t[j] == s[j - 1]);
                        }
                    }
                    assert forall|i: int| 0 <= i < t.len() implies (#[trigger] t[i]).1 > 0 by {
                        if i < pos {
                            assert(t[i] == s[i]);
                        } else if i > pos {
                            assert(t[i] == s[i - 1]);
                        }
                    }
                }
            }
        }
        proof {
            let t = self.values@;
            lemma_entries_count(t);
            assert(entries_multiset(t) =~= entries_multiset(s).add(repeat(value, count as nat)));
            lemma_count_sorted(t, value);
            assert(t[pos as int].0 == value);
        }
        self.length = self.length + count;
        new_count
    }

    /// Returns `true` if the distribution holds the value.
    pub fn contains(&self, value: DistributionType) -> (r: bool)
        requires
            self.wf(),
        ensures
            r == (self@.count(value) > 0),
    {
        self.get(value) > 0
    }

    /// Returns how often the value occurs.
    pub fn get(&self, value: DistributionType) -> (r: Count)
        requires
            self.wf(),
        ensures
            r == self@.count(value),
    {
        proof {
            lemma_entries_count(self.values@);
            lemma_count_sorted(self.values@, value);
        }
        let (pos, found) = self.find(value);
        if found {
            self.values[pos].1
        } else {
            proof {
                assert forall|i: int| 0 <= i < self.values@.len() implies (#[trigger] self.values@[i]).0 != value by {
                    if i > pos {
                        assert(self.values@[pos as int].0 < self.values@[i].0);
                    }
                }
            }
            0
        }
    }

    /// The unique values with their counts, in ascending order of value.
    pub fn iter(&self) -> (r: Vec<(DistributionType, Count)>)
        requires
            self.wf(),
        ensures
            r@ == self.entries(),
            sorted_entries(r@),
            forall|x: i64| #[trigger] self@.count(x) == entries_count(r@, x),
    {
        proof {
            lemma_entries_count(self.values@);
        }
        let mut out: Vec<(DistributionType, Count)> = Vec::new();
        let mut i: usize = 0;
        while i < self.values.len()
            invariant
                i <= self.values@.len(),
                out@ == self.values@.take(i as int),
            decreases self.values@.len() - i,
        {
            out.push(self.values[i]);
            assert(out@ =~= self.values@.take(i + 1));
            i = i + 1;
        }
        assert(out@ =~= self.values@);
        out
    }

    /// A copy of this distribution.
    pub fn duplicate(&self) -> (r: DistributionValue)
        ensures
            r.entries() == self.entries(),
            r@ == self@,
            r.wf() == self.wf(),
    {
        let mut out: Vec<(DistributionType, Count)> = Vec::new();
        let mut i: usize = 0;
        while i < self.values.len()
            invariant
                i <= self.values@.len(),
                out@ == self.values@.take(i as int),
            decreases self.values@.len() - i,
        {
            out.push(self.values[i]);
            assert(out@ =~= self.values@.take(i + 1));
            i = i + 1;
        }
        assert(out@ =~= self.values@);
        DistributionValue { values: out, length: self.length }
    }

    /// Every sample, in ascending order, each value repeated as often as it occurs.
    pub fn iter_values(&self) -> (r: Vec<DistributionType>)
        requires
            self.wf(),
        ensures
            r@.to_multiset() == self@,
            ascending(r@),
            r@.len() == self@.len(),
    {
        let ghost s = self.values@;
        let mut out: Vec<DistributionType> = Vec::new();
        let mut i: usize = 0;
        assert(s.take(0) =~= Seq::<(i64, u32)>::empty());
        assert(out@ =~= Seq::<i64>::empty());
        assert(out@.to_multiset() =~= Multiset::<i64>::empty()) by {
            out@.to_multiset_ensures();
        }
        while i < self.values.len()
            invariant
                s == self.values@,
                sorted_entries(s),
                i <= s.len(),
                out@.to_multiset() == entries_multiset(s.take(i as int)),
                ascending(out@),
                i < s.len() ==> forall|k: int| 0 <= k < out@.len() ==> out@[k] < s[i as int].0,
            decreases s.len() - i,
        {
            let (v, c) = self.values[i];
            let mut j: u32 = 0;
            proof {
                lemma_repeat(v, 0);
                assert(entries_multiset(s.take(i as int)).add(repeat(v, 0)) =~= entries_multiset(s.take(i as int)));
            }
            while j < c
                invariant
                    s == self.values@,
                    i < s.len(),
                    (v, c) == s[i as int],
                    j <= c,
                    out@.to_multiset() == entries_multiset(s.take(i as int)).add(repeat(v, j as nat)),
                    ascending(out@),
                    forall|k: int| 0 <= k < out@.len() ==> out@[k] <= v,
                decreases c - j,
            {
                let ghost before = out@;
                out.push(v);
                proof {
                    vstd::seq_lib::to_multiset_build(before, v);
                    assert(entries_multiset(s.take(i as int)).add(repeat(v, (j + 1) as nat)) =~=
                        entries_multiset(s.take(i as int)).add(repeat(v, j as nat)).insert(v));
                }
                j = j + 1;
            }
            proof {
                assert(s.take(i + 1).drop_last() =~= s.take(i as int));
                if i + 1 < s.len() {
                    assert(s[i as int].0 < s[i + 1].0);
                }
            }
            i = i + 1;
        }
        proof {
            assert(s.take(s.len() as int) =~= s);
            out@.to_multiset_ensures();
        }
        out
    }

    /// Adds every sample of `other`: the counts of equal values add up.
    pub fn merge(&mut self, other: &DistributionValue)
        requires
            old(self).wf(),
            other.wf(),
            old(self)@.len() + other@.len() <= u32::MAX,
        ensures
            final(self).wf(),
            final(self)@ == old(self)@.add(other@),
            final(self).entries().len() >= old(self).entries().len(),
    {
        let ghost s = other.values@;
        let mut i: usize = 0;
        assert(s.take(0) =~= Seq::<(i64, u32)>::empty());
        assert(old(self)@.add(Multiset::empty()) =~= old(self)@);
        while i < other.values.len()
            invariant
                s == other.values@,
                other.wf(),
                i <= s.len(),
                self.wf(),
                self@ == old(self)@.add(entries_multiset(s.take(i as int))),
                old(self)@.len() + other@.len() <= u32::MAX,
                self.entries().len() >= old(self).entries().len(),
            decreases s.len() - i,
        {
            let (v, c) = other.values[i];
            proof {
                lemma_entries_len(s, i + 1);
                assert(s.take(i + 1).drop_last() =~= s.take(i as int));
                lemma_repeat(v, c as nat);
            }
            self.insert_multi(v, c);
            assert(self@ =~= old(self)@.add(entries_multiset(s.take(i + 1))));
            i = i + 1;
        }
        assert(s.take(s.len() as int) =~= s);
    }
}

/// The samples of a distribution after inserting each element of `s` in order.
pub open spec fn inserted_all(start: Multiset<i64>, s: Seq<i64>) -> Multiset<i64>
    decreases s.len(),
{
    if s.len() == 0 {
        start
    } else {
        inserted_all(start, s.drop_last()).insert(s.last())
    }
}

/// Distribution multiset law: inserting a sequence of samples into an empty distribution
/// yields exactly the multiset of the samples, whatever their order.
pub proof fn lemma_distribution_samples(s: Seq<i64>)
    ensures
        inserted_all(Multiset::empty(), s) == s.to_multiset(),
    decreases s.len(),
{
    broadcast use vstd::seq_lib::group_to_multiset_ensures;
    if s.len() == 0 {
        assert(s.to_multiset().len() == 0);
        assert(s.to_multiset() =~= Multiset::empty());
    } else {
        lemma_distribution_samples(s.drop_last());
        assert(s.drop_last().push(s.last()) =~= s);
    }
}

} // verus!
