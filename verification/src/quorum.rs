//! Quorum arithmetic and per-round response counting.
//!
//! A quorum in a cluster of `n` acceptors is any `n / 2 + 1` of them; two
//! quorums always share a member, which is the invariant the protocol's
//! safety argument rests on. `QuorumTracker` counts responses for one
//! (phase, ballot, slot), deduplicated by acceptor identity: counting raw
//! message arrivals would be unsafe under retries and duplication.

use vstd::prelude::*;
use vstd::set_lib::{lemma_int_range, lemma_len_subset, lemma_set_disjoint_lens, set_int_range};

verus! {

/// The quorum threshold for a cluster of `n` acceptors.
pub open spec fn spec_quorum(n: int) -> int {
    n / 2 + 1
}

/// The quorum threshold for a cluster of `n` acceptors: a strict majority.
pub fn quorum_size(n: usize) -> (q: usize)
    requires
        n >= 1,
    ensures
        q == spec_quorum(n as int),
{
    n / 2 + 1
}

/// How many entries of `s` are true.
spec fn count_true(s: Seq<bool>) -> int
    decreases s.len(),
{
    if s.len() == 0 {
        0
    } else {
        count_true(s.drop_last()) + if s.last() {
            1int
        } else {
            0int
        }
    }
}

/// The set of indices of `s` that hold true.
spec fn true_indices(s: Seq<bool>) -> Set<int> {
    Set::new(|i: int| 0 <= i < s.len() && s[i])
}

proof fn lemma_count_true_bounds(s: Seq<bool>)
    ensures
        0 <= count_true(s) <= s.len(),
    decreases s.len(),
{
    if s.len() > 0 {
        lemma_count_true_bounds(s.drop_last());
    }
}

/// Setting a false entry to true raises the count by exactly one.
proof fn lemma_count_true_update(s: Seq<bool>, i: int)
    requires
        0 <= i < s.len(),
        !s[i],
    ensures
        count_true(s.update(i, true)) == count_true(s) + 1,
    decreases s.len(),
{
    let t = s.update(i, true);
    if i == s.len() - 1 {
        assert(t.drop_last() =~= s.drop_last());
    } else {
        assert(t.drop_last() =~= s.drop_last().update(i, true));
        lemma_count_true_update(s.drop_last(), i);
    }
}

/// The count of true entries is the cardinality of the set of true indices.
proof fn lemma_count_true_is_card(s: Seq<bool>)
    ensures
        true_indices(s).finite(),
        true_indices(s).len() == count_true(s),
    decreases s.len(),
{
    if s.len() == 0 {
        assert(true_indices(s) =~= Set::empty());
    } else {
        let prefix = s.drop_last();
        lemma_count_true_is_card(prefix);
        if s.last() {
            assert(true_indices(s) =~= true_indices(prefix).insert(s.len() - 1));
            assert(!true_indices(prefix).contains(s.len() - 1));
        } else {
            assert(true_indices(s) =~= true_indices(prefix));
        }
    }
}

/// Counts the distinct acceptors that have responded to one round.
pub struct QuorumTracker {
    cluster_size: usize,
    seen: Vec<bool>,
    count: usize,
}

impl QuorumTracker {
    /// The size of the cluster the tracker counts over.
    pub closed spec fn cluster(self) -> int {
        self.cluster_size as int
    }

    /// Whether acceptor `id` has been counted.
    pub closed spec fn responded(self, id: int) -> bool {
        0 <= id < self.seen@.len() && self.seen@[id]
    }

    /// The set of acceptors counted so far.
    pub closed spec fn responders(self) -> Set<int> {
        true_indices(self.seen@)
    }

    /// How many distinct acceptors have been counted.
    pub closed spec fn count_spec(self) -> int {
        self.count as int
    }

    pub closed spec fn wf(self) -> bool {
        &&& self.cluster_size >= 1
        &&& self.seen@.len() == self.cluster_size
        &&& self.count as int == count_true(self.seen@)
    }

    /// A fresh tracker for a cluster of `cluster_size` acceptors: nobody has
    /// responded yet.
    pub fn new(cluster_size: usize) -> (t: QuorumTracker)
        requires
            cluster_size >= 1,
        ensures
            t.wf(),
            t.cluster() == cluster_size,
            t.count_spec() == 0,
            forall|id: int| !t.responded(id),
    {
        let mut seen: Vec<bool> = Vec::new();
        let mut i: usize = 0;
        while i < cluster_size
            invariant
                i <= cluster_size,
                seen@.len() == i,
                count_true(seen@) == 0,
                forall|j: int| 0 <= j < i ==> !seen@[j],
            decreases cluster_size - i,
        {
            let ghost prev = seen@;
            seen.push(false);
            proof {
                assert(seen@.drop_last() =~= prev);
            }
            i = i + 1;
        }
        QuorumTracker { cluster_size, seen, count: 0 }
    }

    /// Count a response from `acceptor_id`. A duplicate response is a no-op:
    /// replaying a response an acceptor already gave changes nothing.
    pub fn record(&mut self, acceptor_id: usize) -> (newly: bool)
        requires
            old(self).wf(),
            acceptor_id < old(self).cluster(),
        ensures
            final(self).wf(),
            final(self).cluster() == old(self).cluster(),
            newly == !old(self).responded(acceptor_id as int),
            final(self).responded(acceptor_id as int),
            forall|id: int|
                id != acceptor_id ==> final(self).responded(id) == old(self).responded(id),
            final(self).count_spec() == old(self).count_spec() + if newly {
                1int
            } else {
                0int
            },
            !newly ==> *final(self) == *old(self),
    {
        if self.seen[acceptor_id] {
            false
        } else {
            proof {
                lemma_count_true_update(self.seen@, acceptor_id as int);
                lemma_count_true_bounds(self.seen@.update(acceptor_id as int, true));
            }
            self.seen.set(acceptor_id, true);
            self.count = self.count + 1;
            true
        }
    }

    /// Whether the counted responses form a quorum.
    pub fn has_quorum(&self) -> (r: bool)
        requires
            self.wf(),
        ensures
            r == (self.count_spec() >= spec_quorum(self.cluster())),
    {
        self.count >= quorum_size(self.cluster_size)
    }

    /// The responders form a subset of the cluster of the tracker's size,
    /// with exactly `count_spec()` members.
    pub proof fn lemma_responders(self)
        requires
            self.wf(),
        ensures
            self.responders().finite(),
            self.responders().len() == self.count_spec(),
            self.responders().subset_of(set_int_range(0, self.cluster())),
            forall|id: int| self.responded(id) == self.responders().contains(id),
    {
        lemma_count_true_is_card(self.seen@);
    }
}

/// Quorum intersection: any two quorums drawn from the same cluster of `n`
/// acceptors share at least one acceptor. This is the property the
/// `n / 2 + 1` sizing exists to provide.
pub proof fn lemma_quorum_intersection(n: int, q1: Set<int>, q2: Set<int>)
    requires
        n >= 1,
        q1.finite(),
        q2.finite(),
        q1.subset_of(set_int_range(0, n)),
        q2.subset_of(set_int_range(0, n)),
        q1.len() >= spec_quorum(n),
        q2.len() >= spec_quorum(n),
    ensures
        exists|id: int| q1.contains(id) && q2.contains(id),
{
    if !(exists|id: int| q1.contains(id) && q2.contains(id)) {
        assert(q1.disjoint(q2));
        lemma_set_disjoint_lens(q1, q2);
        assert((q1 + q2).subset_of(set_int_range(0, n)));
        lemma_int_range(0, n);
        lemma_len_subset(q1 + q2, set_int_range(0, n));
        assert(2 * (n / 2 + 1) > n);
        assert(false);
    }
}

/// Quorum intersection, stated over trackers: two trackers counting over the
/// same cluster that both reached quorum heard from a common acceptor.
pub proof fn lemma_quorums_overlap(t1: QuorumTracker, t2: QuorumTracker)
    requires
        t1.wf(),
        t2.wf(),
        t1.cluster() == t2.cluster(),
        t1.count_spec() >= spec_quorum(t1.cluster()),
        t2.count_spec() >= spec_quorum(t2.cluster()),
    ensures
        exists|id: int| t1.responded(id) && t2.responded(id),
{
    t1.lemma_responders();
    t2.lemma_responders();
    lemma_quorum_intersection(t1.cluster(), t1.responders(), t2.responders());
    let id = choose|id: int| t1.responders().contains(id) && t2.responders().contains(id);
    assert(t1.responded(id) && t2.responded(id));
}

} // verus!
