//! Sets of hashed members, kept as a strictly ascending list.
use vstd::prelude::*;

use crate::protocol::SetType;

verus! {

/// Strictly ascending.
pub open spec fn strictly_ascending(s: Seq<u32>) -> bool {
    forall|i: int, j: int| 0 <= i < j < s.len() ==> s[i] < s[j]
}

/// The members of a set bucket.
#[derive(Clone, Debug, PartialEq, Eq)]
pub struct SetValue {
    members: Vec<SetType>,
}

impl View for SetValue {
    type V = Set<u32>;

    closed spec fn view(&self) -> Set<u32> {
        self.members@.to_set()
    }
}

impl SetValue {
    /// The members in ascending order.
    pub closed spec fn elements(&self) -> Seq<u32> {
        self.members@
    }

    pub closed spec fn wf(&self) -> bool {
        strictly_ascending(self.members@)
    }

    /// The empty set.
    pub fn new() -> (r: Self)
        ensures
            r.wf(),
            r@ == Set::<u32>::empty(),
            r.elements().len() == 0,
    {
        let r = SetValue { members: Vec::new() };
        assert(r.members@.to_set() =~= Set::<u32>::empty());
        r
    }

    /// The set of the given members.
    pub fn from_members(members: &[SetType]) -> (r: Self)
        ensures
            r.wf(),
            r@ == members@.to_set(),
    {
        let mut r = SetValue::new();
        let mut i: usize = 0;
        while i < members.len()
            invariant
                i <= members@.len(),
                r.wf(),
                r@ == members@.take(i as int).to_set(),
            decreases members@.len() - i,
        {
            r.insert(members[i]);
            assert(members@.take(i + 1) =~= members@.take(i as int).push(members@[i as int]));
            proof {
                members@.take(i as int).lemma_push_to_set_commute(members@[i as int]);
            }
            assert(members@.take(i + 1).to_set() =~= members@.take(i as int).to_set().insert(members@[i as int]));
            i = i + 1;
        }
        assert(members@.take(members@.len() as int) =~= members@);
        r
    }

    /// Number of members.
    pub fn len(&self) -> (r: usize)
        ensures
            r == self.elements().len(),
    {
        self.members.len()
    }

    fn find(&self, v: SetType) -> (r: usize)
        requires
            self.wf(),
        ensures
            r <= self.elements().len(),
            forall|i: int| 0 <= i < r ==> self.elements()[i] < v,
            r < self.elements().len() ==> self.elements()[r as int] >= v,
    {
        let mut i: usize = 0;
        while i < self.members.len()
            invariant
                i <= self.members@.len(),
                forall|k: int| 0 <= k < i ==> self.members@[k] < v,
            decreases self.members@.len() - i,
        {
            if self.members[i] >= v {
                return i;
            }
            i = i + 1;
        }
        i
    }

    /// Whether `v` is a member.
    pub fn contains(&self, v: SetType) -> (r: bool)
        requires
            self.wf(),
        ensures
            r == self@.contains(v),
    {
        let p = self.find(v);
        let r = p < self.members.len() && self.members[p] == v;
        proof {
            if !r && self@.contains(v) {
                let k = choose|k: int| 0 <= k < self.members@.len() && self.members@[k] == v;
                if k > p {
                    assert(self.members@[p as int] < self.members@[k]);
                }
            }
        }
        r
    }

    /// Adds a member; returns whether it was new.
    pub fn insert(&mut self, v: SetType) -> (r: bool)
        requires
            old(self).wf(),
        ensures
            final(self).wf(),
            final(self)@ == old(self)@.insert(v),
            r == !old(self)@.contains(v),
            final(self).elements().len() == old(self).elements().len() + if r { 1int } else { 0 },
    {
        let ghost s = self.members@;
        let p = self.find(v);
        if p < self.members.len() && self.members[p] == v {
            assert(s.to_set().insert(v) =~= s.to_set());
            return false;
        }
        self.members.insert(p, v);
        proof {
            let t = self.members@;
            assert(t == s.insert(p as int, v));
            assert forall|i: int, j: int| 0 <= i < j < t.len() implies t[i] < t[j] by {
                if j < p {
                } else if j == p {
                } else if i < p {
                    assert(t[j] == s[j - 1]);
                    assert(s[p as int] > v);
                } else if i == p {
                    assert(t[j] == s[j - 1]);
                    if j - 1 > p {
                        assert(s[p as int] < s[j - 1]);
                    }
                } else {
                    assert(t[i] == s[i - 1] && t[j] == s[j - 1]);
                }
            }
            assert(t.to_set() =~= s.to_set().insert(v)) by {
                assert forall|x: u32| t.to_set().contains(x) <==> s.to_set().insert(v).contains(x) by {
                    if t.to_set().contains(x) {
                        let k = choose|k: int| 0 <= k < t.len() && t[k] == x;
                        if k < p {
                            assert(s[k] == x);
                        } else if k > p {
                            assert(s[k - 1] == x);
                        }
                    }
                    if s.to_set().contains(x) {
                        let k = choose|k: int| 0 <= k < s.len() && s[k] == x;
                        if k < p {
                            assert(t[k] == x);
                        } else {
                            assert(t[k + 1] == x);
                        }
                    }
                    if x == v {
                        assert(t[p as int] == v);
                    }
                }
            }
            if s.to_set().contains(v) {
                let k = choose|k: int| 0 <= k < s.len() && s[k] == v;
                if k > p {
                    assert(s[p as int] < s[k]);
                }
            }
        }
        true
    }

    /// The members in ascending order.
    pub fn iter(&self) -> (r: Vec<SetType>)
        requires
            self.wf(),
        ensures
            r@ == self.elements(),
            strictly_ascending(r@),
            r@.to_set() == self@,
    {
        let mut out: Vec<SetType> = Vec::new();
        let mut i: usize = 0;
        while i < self.members.len()
            invariant
                i <= self.members@.len(),
                out@ == self.members@.take(i as int),
            decreases self.members@.len() - i,
        {
            out.push(self.members[i]);
            assert(out@ =~= self.members@.take(i + 1));
            i = i + 1;
        }
        assert(out@ =~= self.members@);
        out
    }

    /// A copy of this set.
    pub fn duplicate(&self) -> (r: SetValue)
        ensures
            r.elements() == self.elements(),
            r@ == self@,
            r.wf() == self.wf(),
    {
        let mut out: Vec<SetType> = Vec::new();
        let mut i: usize = 0;
        while i < self.members.len()
            invariant
                i <= self.members@.len(),
                out@ == self.members@.take(i as int),
            decreases self.members@.len() - i,
        {
            out.push(self.members[i]);
            assert(out@ =~= self.members@.take(i + 1));
            i = i + 1;
        }
        assert(out@ =~= self.members@);
        SetValue { members: out }
    }

    /// Adds every member of `other`.
    pub fn merge(&mut self, other: &SetValue)
        requires
            old(self).wf(),
            other.wf(),
        ensures
            final(self).wf(),
            final(self)@ == old(self)@.union(other@),
            final(self).elements().len() >= old(self).elements().len(),
    {
        let mut i: usize = 0;
        assert(other.members@.take(0).to_set() =~= Set::<u32>::empty());
        assert(old(self)@.union(Set::<u32>::empty()) =~= old(self)@);
        while i < other.members.len()
            invariant
                i <= other.members@.len(),
                self.wf(),
                self@ == old(self)@.union(other.members@.take(i as int).to_set()),
                self.elements().len() >= old(self).elements().len(),
            decreases other.members@.len() - i,
        {
            self.insert(other.members[i]);
            assert(other.members@.take(i + 1) =~= other.members@.take(i as int).push(other.members@[i as int]));
            proof {
                other.members@.take(i as int).lemma_push_to_set_commute(other.members@[i as int]);
            }
            assert(other.members@.take(i + 1).to_set() =~= other.members@.take(i as int).to_set().insert(other.members@[i as int]));
            assert(self@ =~= old(self)@.union(other.members@.take(i + 1).to_set()));
            i = i + 1;
        }
        assert(other.members@.take(other.members@.len() as int) =~= other.members@);
    }
}

/// Set idempotence: adding a member a second time leaves the set as it was after the first.
pub proof fn lemma_set_insert_idempotent(s: Set<u32>, v: u32)
    ensures
        s.insert(v).insert(v) == s.insert(v),
{
    assert(s.insert(v).insert(v) =~= s.insert(v));
}

} // verus!
