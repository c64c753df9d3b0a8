//! The acceptor: per-node authoritative state and the accept/reject rules.
//!
//! Each acceptor owns its state exclusively and mutates it only from its own
//! message handlers; acceptors never talk to each other. An acceptor accepts
//! a prepare or an accept exactly when its ballot is at least the highest
//! ballot the acceptor has seen, and its highest-seen ballot never decreases.

use vstd::prelude::*;
use crate::ballot::{max_ballot, Ballot};
use crate::messages::{AcceptReply, LogEntry, PrepareReply};

verus! {

/// What an acceptor holds for one slot: the highest-ballot value it has
/// accepted there. A newer accept with a ballot at least as high overwrites
/// it; it is never rewritten to a lower ballot.
#[derive(Clone, Copy, PartialEq, Eq, Structural, Debug)]
pub struct Acceptance {
    pub ballot: Ballot,
    pub value: u64,
}

/// What `log` holds for `slot`, with every slot outside the vector absent.
pub open spec fn accepted_of(log: Seq<Option<Acceptance>>, slot: int) -> Option<Acceptance> {
    if 0 <= slot < log.len() {
        log[slot]
    } else {
        None
    }
}

/// The accepted entries of the first `n` slots of `log`, in slot order.
pub open spec fn entries_from(log: Seq<Option<Acceptance>>, n: int) -> Seq<LogEntry>
    decreases n,
{
    if n <= 0 {
        Seq::empty()
    } else {
        entries_from(log, n - 1) + match accepted_of(log, n - 1) {
            Some(a) => seq![LogEntry { ballot: a.ballot, slot: (n - 1) as usize, value: a.value }],
            None => Seq::empty(),
        }
    }
}

/// One acceptor's state: the highest ballot it has seen and, per slot, the
/// highest-ballot value it has accepted.
pub struct AcceptorReplica {
    id: u64,
    highest_seen: Ballot,
    log: Vec<Option<Acceptance>>,
}

impl AcceptorReplica {
    pub closed spec fn id_spec(self) -> u64 {
        self.id
    }

    /// The highest ballot this acceptor has seen; nothing below it is ever
    /// accepted.
    pub closed spec fn highest(self) -> Ballot {
        self.highest_seen
    }

    pub closed spec fn log_view(self) -> Seq<Option<Acceptance>> {
        self.log@
    }

    /// What this acceptor has accepted for `slot`, if anything.
    pub open spec fn accepted_at(self, slot: int) -> Option<Acceptance> {
        accepted_of(self.log_view(), slot)
    }

    /// Everything this acceptor has accepted, in increasing slot order: the
    /// payload of a promise.
    pub open spec fn promise_entries(self) -> Seq<LogEntry> {
        entries_from(self.log_view(), self.log_view().len() as int)
    }

    /// A fresh acceptor: lowest possible ballot, nothing accepted.
    pub fn new(id: u64) -> (a: AcceptorReplica)
        ensures
            a.id_spec() == id,
            a.highest() == (Ballot { round: 0, proposer_id: 0 }),
            forall|s: int| a.accepted_at(s) is None,
    {
        AcceptorReplica { id, highest_seen: Ballot { round: 0, proposer_id: 0 }, log: Vec::new() }
    }

    pub fn id(&self) -> (r: u64)
        ensures
            r == self.id_spec(),
    {
        self.id
    }

    pub fn highest_seen(&self) -> (b: Ballot)
        ensures
            b == self.highest(),
    {
        self.highest_seen
    }

    pub fn accepted(&self, slot: usize) -> (r: Option<Acceptance>)
        ensures
            r == self.accepted_at(slot as int),
    {
        if slot < self.log.len() {
            self.log[slot]
        } else {
            None
        }
    }

    /// Build the promise payload: every accepted entry, in slot order.
    fn collect_entries(&self) -> (v: Vec<LogEntry>)
        ensures
            v@ == self.promise_entries(),
    {
        let mut v: Vec<LogEntry> = Vec::new();
        let mut i: usize = 0;
        while i < self.log.len()
            invariant
                i <= self.log@.len(),
                v@ == entries_from(self.log@, i as int),
            decreases self.log@.len() - i,
        {
            match self.log[i] {
                Some(a) => {
                    v.push(LogEntry { ballot: a.ballot, slot: i, value: a.value });
                },
                None => {},
            }
            assert(v@ =~= entries_from(self.log@, i as int + 1));
            i = i + 1;
        }
        v
    }

    /// Phase 1: if `ballot` is at least the highest ballot seen, promise not
    /// to accept anything below it and report every accepted entry so the
    /// proposer can adopt partially-committed values; otherwise reject with
    /// the current highest ballot.
    pub fn handle_prepare(&mut self, ballot: Ballot) -> (r: PrepareReply)
        ensures
            final(self).id_spec() == old(self).id_spec(),
            final(self).highest() == max_ballot(old(self).highest(), ballot),
            old(self).highest().le(final(self).highest()),
            final(self).log_view() == old(self).log_view(),
            old(self).highest().le(ballot) ==> (r matches PrepareReply::Promise {
                ballot: b,
                accepted,
            } && b == ballot && accepted@ == old(self).promise_entries()),
            !old(self).highest().le(ballot) ==> *final(self) == *old(self) && (r matches
                PrepareReply::Reject { current } && current == old(self).highest()),
    {
        if ballot.ge(&self.highest_seen) {
            self.highest_seen = ballot;
            let accepted = self.collect_entries();
            PrepareReply::Promise { ballot, accepted }
        } else {
            PrepareReply::Reject { current: self.highest_seen }
        }
    }

    /// Phase 2: if `ballot` is at least the highest ballot seen, record
    /// `value` at `slot` (overwriting any earlier, lower-ballot acceptance
    /// for that slot only) and confirm; otherwise reject with the current
    /// highest ballot.
    pub fn handle_accept(&mut self, ballot: Ballot, slot: usize, value: u64) -> (r: AcceptReply)
        requires
            slot < usize::MAX,
        ensures
            final(self).id_spec() == old(self).id_spec(),
            final(self).highest() == max_ballot(old(self).highest(), ballot),
            old(self).highest().le(final(self).highest()),
            old(self).highest().le(ballot) ==> {
                &&& final(self).accepted_at(slot as int) == Some(Acceptance { ballot, value })
                &&& forall|s: int|
                    s != slot ==> final(self).accepted_at(s) == old(self).accepted_at(s)
                &&& r == (AcceptReply::Accepted { ballot, slot, value })
            },
            !old(self).highest().le(ballot) ==> *final(self) == *old(self) && r == (
            AcceptReply::Rejected { current: old(self).highest() }),
    {
        if ballot.ge(&self.highest_seen) {
            self.highest_seen = ballot;
            while self.log.len() <= slot
                invariant
                    slot < usize::MAX,
                    self.log@.len() >= old(self).log@.len(),
                    forall|s: int|
                        0 <= s < old(self).log@.len() ==> self.log@[s] == old(self).log@[s],
                    forall|s: int|
                        old(self).log@.len() <= s < self.log@.len() ==> self.log@[s] is None,
                    self.id == old(self).id,
                    self.highest_seen == ballot,
                decreases slot + 1 - self.log@.len(),
            {
                self.log.push(None);
            }
            self.log.set(slot, Some(Acceptance { ballot, value }));
            AcceptReply::Accepted { ballot, slot, value }
        } else {
            AcceptReply::Rejected { current: self.highest_seen }
        }
    }
}

/// `entries_from(log, n)` reports exactly the accepted entries of the first
/// `n` slots: each reported entry is held, every held entry is reported, and
/// the report is in strictly increasing slot order.
proof fn lemma_entries_from(log: Seq<Option<Acceptance>>, n: int)
    requires
        0 <= n <= log.len(),
        n <= usize::MAX,
    ensures
        forall|i: int|
            0 <= i < entries_from(log, n).len() ==> {
                let e = #[trigger] entries_from(log, n)[i];
                e.slot < n && accepted_of(log, e.slot as int) == Some(
                    Acceptance { ballot: e.ballot, value: e.value },
                )
            },
        forall|s: int|
            0 <= s < n && #[trigger] accepted_of(log, s) is Some ==> exists|i: int|
                0 <= i < entries_from(log, n).len() && #[trigger] entries_from(log, n)[i].slot
                    == s,
        forall|i: int, j: int|
            0 <= i < j < entries_from(log, n).len() ==> entries_from(log, n)[i].slot
                < entries_from(log, n)[j].slot,
    decreases n,
{
    if n > 0 {
        lemma_entries_from(log, n - 1);
        let prev = entries_from(log, n - 1);
        let cur = entries_from(log, n);
        assert(forall|i: int| 0 <= i < prev.len() ==> cur[i] == prev[i]);
        if accepted_of(log, n - 1) is Some {
            assert(cur[cur.len() - 1].slot == n - 1);
            assert(forall|s: int|
                0 <= s < n && accepted_of(log, s) is Some ==> exists|i: int|
                    0 <= i < cur.len() && #[trigger] cur[i].slot == s) by {
                assert forall|s: int|
                    0 <= s < n && accepted_of(log, s) is Some implies exists|i: int|
                    0 <= i < cur.len() && #[trigger] cur[i].slot == s by {
                    if s < n - 1 {
                        let i = choose|i: int| 0 <= i < prev.len() && #[trigger] prev[i].slot == s;
                        assert(cur[i].slot == s);
                    } else {
                        assert(cur[cur.len() - 1].slot == s);
                    }
                }
            }
        } else {
            assert(cur =~= prev);
        }
    }
}

impl AcceptorReplica {
    /// A promise reports exactly what the acceptor has accepted: each entry
    /// of `promise_entries()` is held at its slot, every accepted slot
    /// appears, and slots are strictly increasing (so each appears once).
    pub proof fn lemma_promise_entries(self)
        ensures
            forall|i: int|
                0 <= i < self.promise_entries().len() ==> {
                    let e = #[trigger] self.promise_entries()[i];
                    self.accepted_at(e.slot as int) == Some(
                        Acceptance { ballot: e.ballot, value: e.value },
                    )
                },
            forall|s: int|
                #[trigger] self.accepted_at(s) is Some ==> exists|i: int|
                    0 <= i < self.promise_entries().len()
                        && #[trigger] self.promise_entries()[i].slot == s,
            forall|i: int, j: int|
                0 <= i < j < self.promise_entries().len() ==> self.promise_entries()[i].slot
                    < self.promise_entries()[j].slot,
    {
        assert(self.log_view().len() <= usize::MAX) by {
            broadcast use vstd::std_specs::vec::group_vec_axioms;

            assert(self.log.len() == self.log@.len());
        }
        lemma_entries_from(self.log_view(), self.log_view().len() as int);
    }
}

/// The ballot an acceptor's highest-seen ballot reaches after handling a
/// sequence of messages carrying the ballots `incoming`, in order. Both
/// handlers move the highest-seen ballot to exactly
/// `max_ballot(highest, incoming)`, whether they accept or reject.
pub open spec fn run_highest(h: Ballot, incoming: Seq<Ballot>) -> Ballot
    decreases incoming.len(),
{
    if incoming.len() == 0 {
        h
    } else {
        run_highest(max_ballot(h, incoming[0]), incoming.drop_first())
    }
}

/// Ballot monotonicity: across any sequence of handled messages, an
/// acceptor's highest-seen ballot never decreases.
pub proof fn lemma_highest_monotonic(h: Ballot, incoming: Seq<Ballot>)
    ensures
        h.le(run_highest(h, incoming)),
    decreases incoming.len(),
{
    if incoming.len() > 0 {
        lemma_highest_monotonic(max_ballot(h, incoming[0]), incoming.drop_first());
    }
}

} // verus!
