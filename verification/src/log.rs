//! The committed log: the externally visible output of the protocol.
//!
//! Append-only per slot: once a slot holds a value it is never altered or
//! removed, so at most one value is ever present for any slot.

use vstd::prelude::*;

verus! {

/// The ordered sequence of committed (slot, value) pairs in the first `n`
/// slots of `entries`.
pub open spec fn pairs_from(entries: Seq<Option<u64>>, n: int) -> Seq<(usize, u64)>
    decreases n,
{
    if n <= 0 {
        Seq::empty()
    } else {
        let tail = if 0 <= n - 1 < entries.len() {
            entries[n - 1]
        } else {
            None
        };
        pairs_from(entries, n - 1) + match tail {
            Some(v) => seq![((n - 1) as usize, v)],
            None => Seq::empty(),
        }
    }
}

/// The committed values, one optional value per slot.
pub struct CommittedLog {
    entries: Vec<Option<u64>>,
}

impl CommittedLog {
    /// The value committed at `slot`, if any.
    pub closed spec fn value_at(self, slot: int) -> Option<u64> {
        if 0 <= slot < self.entries@.len() {
            self.entries@[slot]
        } else {
            None
        }
    }

    /// An empty log: no slot committed.
    pub fn new() -> (l: CommittedLog)
        ensures
            forall|s: int| l.value_at(s) is None,
    {
        CommittedLog { entries: Vec::new() }
    }

    /// The value committed at `slot`, or absent.
    pub fn committed_value(&self, slot: usize) -> (r: Option<u64>)
        ensures
            r == self.value_at(slot as int),
    {
        if slot < self.entries.len() {
            self.entries[slot]
        } else {
            None
        }
    }

    /// Record `value` at `slot`. The log is append-only: a slot that already
    /// holds a value keeps it unchanged, whatever `value` is, and no other
    /// slot is touched. Returns whether the slot was newly committed.
    pub fn commit(&mut self, slot: usize, value: u64) -> (fresh: bool)
        requires
            slot < usize::MAX,
        ensures
            fresh == (old(self).value_at(slot as int) is None),
            fresh ==> final(self).value_at(slot as int) == Some(value),
            !fresh ==> *final(self) == *old(self),
            forall|s: int| s != slot ==> final(self).value_at(s) == old(self).value_at(s),
            forall|s: int|
                old(self).value_at(s) is Some ==> final(self).value_at(s) == old(self).value_at(
                    s,
                ),
    {
        if slot < self.entries.len() {
            match self.entries[slot] {
                Some(_) => {
                    return false;
                },
                None => {
                    self.entries.set(slot, Some(value));
                    return true;
                },
            }
        }
        while self.entries.len() < slot
            invariant
                slot < usize::MAX,
                self.entries@.len() <= slot,
                self.entries@.len() >= old(self).entries@.len(),
                forall|s: int|
                    0 <= s < old(self).entries@.len() ==> self.entries@[s] == old(
                        self,
                    ).entries@[s],
                forall|s: int|
                    old(self).entries@.len() <= s < self.entries@.len() ==> self.entries@[s]
                        is None,
            decreases slot - self.entries@.len(),
        {
            self.entries.push(None);
        }
        self.entries.push(Some(value));
        true
    }

    /// The committed (slot, value) pairs, in slot order: a restartable
    /// sequence for downstream consumption.
    pub fn entries(&self) -> (v: Vec<(usize, u64)>)
        ensures
            v@ == pairs_from(self.pairs_view(), self.pairs_view().len() as int),
            forall|i: int|
                0 <= i < v@.len() ==> self.value_at(#[trigger] v@[i].0 as int) == Some(v@[i].1),
            forall|s: int|
                #[trigger] self.value_at(s) is Some ==> exists|i: int|
                    0 <= i < v@.len() && #[trigger] v@[i].0 == s,
            forall|i: int, j: int| 0 <= i < j < v@.len() ==> v@[i].0 < v@[j].0,
    {
        let mut v: Vec<(usize, u64)> = Vec::new();
        let mut i: usize = 0;
        while i < self.entries.len()
            invariant
                i <= self.entries@.len(),
                v@ == pairs_from(self.entries@, i as int),
            decreases self.entries@.len() - i,
        {
            match self.entries[i] {
                Some(value) => {
                    v.push((i, value));
                },
                None => {},
            }
            assert(v@ =~= pairs_from(self.entries@, i as int + 1));
            i = i + 1;
        }
        proof {
            lemma_pairs_from(self.entries@, self.entries@.len() as int);
        }
        v
    }

    /// The per-slot contents the pair enumeration ranges over.
    pub closed spec fn pairs_view(self) -> Seq<Option<u64>> {
        self.entries@
    }
}

/// `pairs_from(entries, n)` enumerates exactly the committed slots below
/// `n`, in strictly increasing slot order.
proof fn lemma_pairs_from(entries: Seq<Option<u64>>, n: int)
    requires
        0 <= n <= entries.len(),
        n <= usize::MAX,
    ensures
        forall|i: int|
            0 <= i < pairs_from(entries, n).len() ==> {
                let p = #[trigger] pairs_from(entries, n)[i];
                p.0 < n && 0 <= p.0 < entries.len() && entries[p.0 as int] == Some(p.1)
            },
        forall|s: int|
            0 <= s < n && #[trigger] entries[s] is Some ==> exists|i: int|
                0 <= i < pairs_from(entries, n).len() && #[trigger] pairs_from(entries, n)[i].0
                    == s,
        forall|i: int, j: int|
            0 <= i < j < pairs_from(entries, n).len() ==> pairs_from(entries, n)[i].0
                < pairs_from(entries, n)[j].0,
    decreases n,
{
    if n > 0 {
        lemma_pairs_from(entries, n - 1);
        let prev = pairs_from(entries, n - 1);
        let cur = pairs_from(entries, n);
        assert(forall|i: int| 0 <= i < prev.len() ==> cur[i] == prev[i]);
        if entries[n - 1] is Some {
            assert(cur[cur.len() - 1].0 == n - 1);
            assert forall|s: int| 0 <= s < n && #[trigger] entries[s] is Some implies exists|i: int|
                0 <= i < cur.len() && #[trigger] cur[i].0 == s by {
                if s < n - 1 {
                    let i = choose|i: int| 0 <= i < prev.len() && #[trigger] prev[i].0 == s;
                    assert(cur[i].0 == s);
                } else {
                    assert(cur[cur.len() - 1].0 == s);
                }
            }
        } else {
            assert(cur =~= prev);
        }
    }
}

/// Agreement at the log: a slot holds at most one value, so two reads of the
/// same committed slot always see the same value.
pub proof fn lemma_agreement(l: CommittedLog, slot: int, v1: u64, v2: u64)
    requires
        l.value_at(slot) == Some(v1),
        l.value_at(slot) == Some(v2),
    ensures
        v1 == v2,
{
}

} // verus!
