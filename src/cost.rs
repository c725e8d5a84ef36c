//! Byte accounting of the live buckets, globally and per project.
use vstd::prelude::*;

use crate::error::{err, error_of, AggregateMetricsError, AggregateMetricsErrorKind};
use crate::protocol::ProjectKey;

verus! {

/// One project's tracked cost.
pub type ProjectCost = (Seq<char>, nat);

/// Sum of all tracked costs.
pub open spec fn sum_costs(s: Seq<ProjectCost>) -> nat
    decreases s.len(),
{
    if s.len() == 0 {
        0
    } else {
        sum_costs(s.drop_last()) + s.last().1
    }
}

/// Sum of the costs tracked for project `p`.
pub open spec fn cost_for(s: Seq<ProjectCost>, p: Seq<char>) -> nat
    decreases s.len(),
{
    if s.len() == 0 {
        0
    } else {
        cost_for(s.drop_last(), p) + if s.last().0 == p {
            s.last().1
        } else {
            0
        }
    }
}

/// Each project at most once, every cost positive.
pub open spec fn unique_positive(s: Seq<ProjectCost>) -> bool {
    &&& forall|i: int, j: int| 0 <= i < j < s.len() ==> (#[trigger] s[i]).0 != (#[trigger] s[j]).0
    &&& forall|i: int| 0 <= i < s.len() ==> (#[trigger] s[i]).1 > 0
}

pub proof fn lemma_update(s: Seq<ProjectCost>, i: int, c: nat, p: Seq<char>)
    requires
        0 <= i < s.len(),
    ensures
        sum_costs(s.update(i, (s[i].0, c))) + s[i].1 == sum_costs(s) + c,
        cost_for(s.update(i, (s[i].0, c)), p) + (if s[i].0 == p { s[i].1 } else { 0 })
            == cost_for(s, p) + (if s[i].0 == p { c } else { 0 }),
    decreases s.len(),
{
    let t = s.update(i, (s[i].0, c));
    if i == s.len() - 1 {
        assert(t.drop_last() =~= s.drop_last());
    } else {
        assert(t.drop_last() =~= s.drop_last().update(i, (s[i].0, c)));
        lemma_update(s.drop_last(), i, c, p);
    }
}

pub proof fn lemma_remove(s: Seq<ProjectCost>, i: int, p: Seq<char>)
    requires
        0 <= i < s.len(),
    ensures
        sum_costs(s.remove(i)) + s[i].1 == sum_costs(s),
        cost_for(s.remove(i), p) + (if s[i].0 == p { s[i].1 } else { 0 }) == cost_for(s, p),
    decreases s.len(),
{
    let t = s.remove(i);
    if i == s.len() - 1 {
        assert(t =~= s.drop_last());
    } else {
        assert(t.drop_last() =~= s.drop_last().remove(i));
        lemma_remove(s.drop_last(), i, p);
    }
}

pub proof fn lemma_push(s: Seq<ProjectCost>, e: ProjectCost, p: Seq<char>)
    ensures
        sum_costs(s.push(e)) == sum_costs(s) + e.1,
        cost_for(s.push(e), p) == cost_for(s, p) + if e.0 == p { e.1 } else { 0 },
{
    assert(s.push(e).drop_last() =~= s);
}

/// With each project once, a project's cost is its entry's, or 0 without an entry.
pub proof fn lemma_cost_for_unique(s: Seq<ProjectCost>, p: Seq<char>)
    requires
        unique_positive(s),
    ensures
        forall|i: int| 0 <= i < s.len() && (#[trigger] s[i]).0 == p ==> cost_for(s, p) == s[i].1,
        (forall|i: int| 0 <= i < s.len() ==> (#[trigger] s[i]).0 != p) ==> cost_for(s, p) == 0,
        cost_for(s, p) <= sum_costs(s),
        sum_costs(s) == 0 <==> s.len() == 0,
    decreases s.len(),
{
    if s.len() > 0 {
        let t = s.drop_last();
        assert(unique_positive(t)) by {
            assert forall|i: int, j: int| 0 <= i < j < t.len() implies (#[trigger] t[i]).0 != (#[trigger] t[j]).0 by {
                assert(t[i] == s[i] && t[j] == s[j]);
            }
            assert forall|i: int| 0 <= i < t.len() implies (#[trigger] t[i]).1 > 0 by {
                assert(t[i] == s[i]);
            }
        }
        lemma_cost_for_unique(t, p);
        assert forall|i: int| 0 <= i < s.len() && (#[trigger] s[i]).0 == p implies cost_for(s, p) == s[i].1 by {
            if i < s.len() - 1 {
                assert(t[i] == s[i]);
            } else {
                assert forall|k: int| 0 <= k < t.len() implies (#[trigger] t[k]).0 != p by {
                    assert(t[k] == s[k]);
                }
            }
        }
        if forall|i: int| 0 <= i < s.len() ==> (#[trigger] s[i]).0 != p {
            assert forall|k: int| 0 <= k < t.len() implies (#[trigger] t[k]).0 != p by {
                assert(t[k] == s[k]);
            }
            assert(s[s.len() - 1].0 != p);
        }
        assert(s.last().1 > 0);
    }
}

/// Byte accounting: a total and a cost per project. Projects without cost are not listed.
#[derive(Debug)]
pub struct CostTracker {
    total_cost: usize,
    cost_per_project_key: Vec<(ProjectKey, usize)>,
}

impl CostTracker {
    /// The per-project entries.
    pub closed spec fn entries(&self) -> Seq<ProjectCost> {
        self.cost_per_project_key@.map_values(|e: (ProjectKey, usize)| (e.0@, e.1 as nat))
    }

    /// The total tracked cost.
    pub closed spec fn total(&self) -> nat {
        self.total_cost as nat
    }

    /// The cost tracked for project `p`.
    pub open spec fn cost_of(&self, p: Seq<char>) -> nat {
        cost_for(self.entries(), p)
    }

    /// Number of projects with a positive cost.
    pub open spec fn project_count(&self) -> nat {
        self.entries().len()
    }

    /// Each project listed once with a positive cost, and the total is their sum.
    pub open spec fn wf(&self) -> bool {
        &&& unique_positive(self.entries())
        &&& self.total() == sum_costs(self.entries())
    }

    /// Facts that follow from consistency.
    pub proof fn lemma_wf(&self, p: Seq<char>)
        requires
            self.wf(),
        ensures
            self.cost_of(p) <= self.total(),
            self.total() == 0 <==> self.project_count() == 0,
            self.total() <= usize::MAX,
    {
        lemma_cost_for_unique(self.entries(), p);
    }

    /// A tracker with nothing tracked.
    pub fn new() -> (r: Self)
        ensures
            r.wf(),
            r.total() == 0,
            r.project_count() == 0,
            forall|p: Seq<char>| r.cost_of(p) == 0,
    {
        let r = CostTracker { total_cost: 0, cost_per_project_key: Vec::new() };
        assert(r.entries() =~= Seq::<ProjectCost>::empty());
        r
    }

    /// The total tracked cost.
    pub fn total_cost(&self) -> (r: usize)
        ensures
            r == self.total(),
    {
        self.total_cost
    }

    /// The number of projects with a positive cost.
    pub fn tracked_projects(&self) -> (r: usize)
        ensures
            r == self.project_count(),
    {
        self.cost_per_project_key.len()
    }

    fn find(&self, project_key: &ProjectKey) -> (r: Option<usize>)
        requires
            self.wf(),
        ensures
            r matches Some(i) ==> i < self.entries().len() && self.entries()[i as int].0 == project_key@,
            r is None ==> forall|i: int| 0 <= i < self.entries().len() ==> (#[trigger] self.entries()[i]).0 != project_key@,
    {
        let mut i: usize = 0;
        while i < self.cost_per_project_key.len()
            invariant
                i <= self.entries().len(),
                self.entries().len() == self.cost_per_project_key@.len(),
                forall|j: int| 0 <= j < i ==> (#[trigger] self.entries()[j]).0 != project_key@,
            decreases self.entries().len() - i,
        {
            assert(self.entries()[i as int].0 == self.cost_per_project_key@[i as int].0@);
            if self.cost_per_project_key[i].0.same(project_key) {
                return Some(i);
            }
            i = i + 1;
        }
        None
    }

    /// The cost tracked for a project.
    pub fn project_cost(&self, project_key: &ProjectKey) -> (r: usize)
        requires
            self.wf(),
        ensures
            r == self.cost_of(project_key@),
    {
        proof {
            lemma_cost_for_unique(self.entries(), project_key@);
        }
        match self.find(project_key) {
            Some(i) => {
                assert(self.entries()[i as int].1 == self.cost_per_project_key@[i as int].1);
                self.cost_per_project_key[i].1
            },
            None => 0,
        }
    }

    /// Whether the total has reached the limit, if there is one.
    pub fn totals_cost_exceeded(&self, max_total_cost: Option<usize>) -> (r: bool)
        ensures
            r == totals_exceeded(self.total(), max_total_cost),
    {
        match max_total_cost {
            Some(max) => self.total_cost >= max,
            None => false,
        }
    }

    /// Admission check: fails when the total limit is reached, else when the project's limit
    /// is reached.
    pub fn check_limits_exceeded(&self, project_key: &ProjectKey, max_total_cost: Option<usize>, max_project_cost: Option<usize>) -> (r: Result<(), AggregateMetricsError>)
        requires
            self.wf(),
        ensures
            r == admission(self.total(), self.cost_of(project_key@), max_total_cost, max_project_cost),
    {
        if self.totals_cost_exceeded(max_total_cost) {
            return Err(error_of(AggregateMetricsErrorKind::TotalLimitExceeded));
        }
        if let Some(max) = max_project_cost {
            let project_cost = self.project_cost(project_key);
            if project_cost >= max {
                return Err(error_of(AggregateMetricsErrorKind::ProjectLimitExceeded));
            }
        }
        Ok(())
    }

    /// Adds `cost` to the project and to the total.
    pub fn add_cost(&mut self, project_key: &ProjectKey, cost: usize)
        requires
            old(self).wf(),
            old(self).total() + cost <= usize::MAX,
        ensures
            final(self).wf(),
            final(self).total() == old(self).total() + cost,
            final(self).cost_of(project_key@) == old(self).cost_of(project_key@) + cost,
            forall|p: Seq<char>| p != project_key@ ==> final(self).cost_of(p) == old(self).cost_of(p),
    {
        let ghost s = self.entries();
        proof {
            lemma_cost_for_unique(s, project_key@);
        }
        if cost == 0 {
            return;
        }
        let found = self.find(project_key);
        self.total_cost = self.total_cost + cost;
        match found {
            Some(i) => {
                let (k, c) = self.cost_per_project_key.remove(i);
                assert(c == s[i as int].1);
                assert(c <= sum_costs(s)) by {
                    lemma_cost_for_unique(s, project_key@);
                }
                self.cost_per_project_key.insert(i, (k, c + cost));
                proof {
                    assert(self.entries() =~= s.update(i as int, (s[i as int].0, (c + cost) as nat)));
                    assert forall|p: Seq<char>| #[trigger] cost_for(self.entries(), p) == cost_for(s, p) + (if p == project_key@ { cost as nat } else { 0 }) by {
                        lemma_update(s, i as int, (c + cost) as nat, p);
                    }
                    lemma_update(s, i as int, (c + cost) as nat, project_key@);
                }
            },
            None => {
                self.cost_per_project_key.push((project_key.duplicate(), cost));
                proof {
                    assert(self.entries() =~= s.push((project_key@, cost as nat)));
                    assert forall|p: Seq<char>| #[trigger] cost_for(self.entries(), p) == cost_for(s, p) + (if p == project_key@ { cost as nat } else { 0 }) by {
                        lemma_push(s, (project_key@, cost as nat), p);
                    }
                    lemma_push(s, (project_key@, cost as nat), project_key@);
                }
            },
        }
    }

    /// Subtracts `cost` from the project and the total. More than the project's cost is
    /// clamped to what is tracked; an untracked project is left alone.
    pub fn subtract_cost(&mut self, project_key: &ProjectKey, cost: usize)
        requires
            old(self).wf(),
        ensures
            final(self).wf(),
            final(self).cost_of(project_key@) == if old(self).cost_of(project_key@) >= cost {
                old(self).cost_of(project_key@) - cost
            } else {
                0
            },
            final(self).total() + old(self).cost_of(project_key@) == old(self).total() + final(self).cost_of(project_key@),
            forall|p: Seq<char>| p != project_key@ ==> final(self).cost_of(p) == old(self).cost_of(p),
    {
        let ghost s = self.entries();
        proof {
            lemma_cost_for_unique(s, project_key@);
        }
        match self.find(project_key) {
            None => {},
            Some(i) => {
                let (k, c) = self.cost_per_project_key.remove(i);
                assert(c == s[i as int].1);
                let ghost removed = self.entries();
                assert(removed =~= s.remove(i as int));
                if cost >= c {
                    self.total_cost = self.total_cost - c;
                    proof {
                        assert forall|p: Seq<char>| #[trigger] cost_for(self.entries(), p) + (if p == project_key@ { c as nat } else { 0 }) == cost_for(s, p) by {
                            lemma_remove(s, i as int, p);
                        }
                        lemma_remove(s, i as int, project_key@);
                        assert(unique_positive(self.entries())) by {
                            let t = self.entries();
                            assert forall|a: int, b: int| 0 <= a < b < t.len() implies (#[trigger] t[a]).0 != (#[trigger] t[b]).0 by {
                                let a2 = if a < i { a } else { a + 1 };
                                let b2 = if b < i { b } else { b + 1 };
                                assert(t[a] == s[a2] && t[b] == s[b2]);
                            }
                            assert forall|a: int| 0 <= a < t.len() implies (#[trigger] t[a]).1 > 0 by {
                                let a2 = if a < i { a } else { a + 1 };
                                assert(t[a] == s[a2]);
                            }
                        }
                    }
                } else {
                    self.total_cost = self.total_cost - cost;
                    self.cost_per_project_key.insert(i, (k, c - cost));
                    proof {
                        assert(self.entries() =~= s.update(i as int, (s[i as int].0, (c - cost) as nat)));
                        assert forall|p: Seq<char>| #[trigger] cost_for(self.entries(), p) + (if p == project_key@ { cost as nat } else { 0 }) == cost_for(s, p) by {
                            lemma_update(s, i as int, (c - cost) as nat, p);
                        }
                        lemma_update(s, i as int, (c - cost) as nat, project_key@);
                    }
                }
            },
        }
    }
}

/// Whether `total` has reached the limit, if there is one.
pub open spec fn totals_exceeded(total: nat, max_total_cost: Option<usize>) -> bool {
    match max_total_cost {
        Some(max) => total >= max,
        None => false,
    }
}

/// The outcome of the admission check.
pub open spec fn admission(total: nat, project: nat, max_total_cost: Option<usize>, max_project_cost: Option<usize>) -> Result<(), AggregateMetricsError> {
    if totals_exceeded(total, max_total_cost) {
        Err(err(AggregateMetricsErrorKind::TotalLimitExceeded))
    } else if max_project_cost matches Some(max) && project >= max {
        Err(err(AggregateMetricsErrorKind::ProjectLimitExceeded))
    } else {
        Ok(())
    }
}

/// Once the total limit is reached, every admission fails with `TotalLimitExceeded`, whatever
/// the project and its limit.
pub proof fn lemma_admission_monotone(total: nat, project: nat, max_total_cost: Option<usize>, max_project_cost: Option<usize>)
    requires
        totals_exceeded(total, max_total_cost),
    ensures
        admission(total, project, max_total_cost, max_project_cost) == Err::<(), AggregateMetricsError>(
            err(AggregateMetricsErrorKind::TotalLimitExceeded),
        ),
{
}

} // verus!
