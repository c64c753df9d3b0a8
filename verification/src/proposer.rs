//! The proposer session: drives the two-phase protocol for a stream of
//! client values, owns the current ballot, and decides when a slot commits.
//!
//! The session cycles through `Idle -> Preparing -> Accepting`; a rejection
//! carrying a higher ballot preempts the round and restarts phase 1 with a
//! strictly greater round. "Committed" is a per-slot outcome, not a terminal
//! state: the session runs indefinitely.

use vstd::prelude::*;
use crate::acceptor::Acceptance;
use crate::ballot::Ballot;
use crate::log::CommittedLog;
use crate::messages::{Accept, LogEntry, Prepare};
use crate::quorum::{spec_quorum, QuorumTracker};

verus! {

/// Where the session stands in the two-phase protocol.
#[derive(Clone, Copy, PartialEq, Eq, Structural, Debug)]
pub enum Phase {
    /// No round in flight.
    Idle,
    /// Phase 1: collecting promises for the current ballot.
    Preparing,
    /// Phase 2: collecting accepted responses for the pending slots.
    Accepting,
}

/// Per-slot phase-2 tracking: the value proposed for the slot and the
/// distinct acceptors that confirmed it under the current ballot.
pub struct PendingSlot {
    value: u64,
    acks: QuorumTracker,
}

/// How one reported acceptance folds into the best observation so far:
/// a strictly higher ballot replaces it, anything else is kept.
pub open spec fn obs_plus_entry(obs: Option<Acceptance>, e: LogEntry) -> Option<Acceptance> {
    match obs {
        None => Some(Acceptance { ballot: e.ballot, value: e.value }),
        Some(a) => if a.ballot.lt(e.ballot) {
            Some(Acceptance { ballot: e.ballot, value: e.value })
        } else {
            Some(a)
        },
    }
}

/// The best observation for `slot` after folding the reports `es`, in
/// order, into the prior observation `obs`: the highest reported ballot
/// wins. This is the value-adoption rule phase 1 exists to enforce.
pub open spec fn obs_after(obs: Option<Acceptance>, slot: int, es: Seq<LogEntry>) -> Option<
    Acceptance,
>
    decreases es.len(),
{
    if es.len() == 0 {
        obs
    } else {
        let rest = obs_after(obs, slot, es.drop_last());
        if es.last().slot == slot {
            obs_plus_entry(rest, es.last())
        } else {
            rest
        }
    }
}

/// The observable state of session `b` is the same as that of `a`: handlers
/// ensure this for stale, duplicate or foreign messages, which are no-ops.
pub open spec fn same_session(a: ProposerSession, b: ProposerSession) -> bool {
    &&& b.id_spec() == a.id_spec()
    &&& b.cluster() == a.cluster()
    &&& b.phase_spec() == a.phase_spec()
    &&& b.ballot_spec() == a.ballot_spec()
    &&& b.next_slot_spec() == a.next_slot_spec()
    &&& forall|s: int| b.pending_value_at(s) == a.pending_value_at(s)
    &&& forall|s: int, id: int| b.acked(s, id) == a.acked(s, id)
    &&& forall|s: int| b.ack_count(s) == a.ack_count(s)
    &&& forall|id: int| b.promised(id) == a.promised(id)
    &&& b.promise_count() == a.promise_count()
    &&& forall|s: int| b.observed_at(s) == a.observed_at(s)
    &&& forall|s: int| b.committed_at(s) == a.committed_at(s)
}

/// The proposer's state: current ballot and phase, per-slot pending
/// tracking, phase-1 promise tracking, and the committed log.
pub struct ProposerSession {
    proposer_id: u64,
    cluster_size: usize,
    phase: Phase,
    current_ballot: Ballot,
    next_slot: usize,
    pending: Vec<Option<PendingSlot>>,
    promises: QuorumTracker,
    observed: Vec<Option<Acceptance>>,
    log: CommittedLog,
}

impl ProposerSession {
    pub closed spec fn id_spec(self) -> u64 {
        self.proposer_id
    }

    pub closed spec fn cluster(self) -> int {
        self.cluster_size as int
    }

    pub closed spec fn phase_spec(self) -> Phase {
        self.phase
    }

    /// The ballot the session currently proposes under.
    pub closed spec fn ballot_spec(self) -> Ballot {
        self.current_ballot
    }

    /// The slot the next submitted value will be assigned.
    pub closed spec fn next_slot_spec(self) -> int {
        self.next_slot as int
    }

    spec fn pending_cell(self, s: int) -> Option<PendingSlot> {
        if 0 <= s < self.pending@.len() {
            self.pending@[s]
        } else {
            None
        }
    }

    /// The value currently proposed for slot `s`, if the slot is pending.
    pub closed spec fn pending_value_at(self, s: int) -> Option<u64> {
        match self.pending_cell(s) {
            Some(p) => Some(p.value),
            None => None,
        }
    }

    /// Whether acceptor `id` has been counted as accepting slot `s` under
    /// the current ballot.
    pub closed spec fn acked(self, s: int, id: int) -> bool {
        match self.pending_cell(s) {
            Some(p) => p.acks.responded(id),
            None => false,
        }
    }

    /// How many distinct acceptors have been counted for slot `s`.
    pub closed spec fn ack_count(self, s: int) -> int {
        match self.pending_cell(s) {
            Some(p) => p.acks.count_spec(),
            None => 0,
        }
    }

    /// Whether acceptor `id` has been counted as promising the current
    /// ballot.
    pub closed spec fn promised(self, id: int) -> bool {
        self.promises.responded(id)
    }

    /// How many distinct acceptors have promised the current ballot.
    pub closed spec fn promise_count(self) -> int {
        self.promises.count_spec()
    }

    /// The best (highest-ballot) acceptance reported for slot `s` by the
    /// promises of the current round.
    pub closed spec fn observed_at(self, s: int) -> Option<Acceptance> {
        if 0 <= s < self.observed@.len() {
            self.observed@[s]
        } else {
            None
        }
    }

    pub closed spec fn log_spec(self) -> CommittedLog {
        self.log
    }

    /// The value committed at slot `s`, if any.
    pub open spec fn committed_at(self, s: int) -> Option<u64> {
        self.log_spec().value_at(s)
    }

    pub closed spec fn wf(self) -> bool {
        &&& self.cluster_size >= 1
        &&& self.current_ballot.proposer_id == self.proposer_id
        &&& self.promises.wf()
        &&& self.promises.cluster() == self.cluster_size as int
        &&& self.pending@.len() == self.next_slot
        &&& forall|s: int|
            (#[trigger] self.pending_cell(s)) matches Some(p) ==> p.acks.wf() && p.acks.cluster()
                == self.cluster_size as int
        &&& forall|s: int|
            (#[trigger] self.log.value_at(s)) is Some ==> 0 <= s < self.next_slot
                && self.pending_cell(s) is None
    }

    /// A fresh session for a cluster of `cluster_size` acceptors.
    pub fn new(proposer_id: u64, cluster_size: usize) -> (p: ProposerSession)
        requires
            cluster_size >= 1,
        ensures
            p.wf(),
            p.id_spec() == proposer_id,
            p.cluster() == cluster_size,
            p.phase_spec() == Phase::Idle,
            p.ballot_spec() == (Ballot { round: 0, proposer_id }),
            p.next_slot_spec() == 0,
            forall|s: int| p.pending_value_at(s) is None,
            forall|s: int| p.observed_at(s) is None,
            forall|s: int| p.committed_at(s) is None,
            p.promise_count() == 0,
    {
        ProposerSession {
            proposer_id,
            cluster_size,
            phase: Phase::Idle,
            current_ballot: Ballot { round: 0, proposer_id },
            next_slot: 0,
            pending: Vec::new(),
            promises: QuorumTracker::new(cluster_size),
            observed: Vec::new(),
            log: CommittedLog::new(),
        }
    }

    /// Admit a client value: assign it the next slot, in increasing order,
    /// and start tracking it. No two values are ever assigned the same slot.
    pub fn submit(&mut self, value: u64) -> (slot: usize)
        requires
            old(self).wf(),
            old(self).next_slot_spec() < usize::MAX,
        ensures
            final(self).wf(),
            slot == old(self).next_slot_spec(),
            final(self).next_slot_spec() == old(self).next_slot_spec() + 1,
            final(self).pending_value_at(slot as int) == Some(value),
            final(self).ack_count(slot as int) == 0,
            forall|id: int| !final(self).acked(slot as int, id),
            forall|s: int|
                s != slot ==> final(self).pending_value_at(s) == old(self).pending_value_at(s),
            forall|s: int, id: int|
                s != slot ==> final(self).acked(s, id) == old(self).acked(s, id),
            forall|s: int| s != slot ==> final(self).ack_count(s) == old(self).ack_count(s),
            final(self).id_spec() == old(self).id_spec(),
            final(self).cluster() == old(self).cluster(),
            final(self).phase_spec() == old(self).phase_spec(),
            final(self).ballot_spec() == old(self).ballot_spec(),
            forall|s: int| final(self).committed_at(s) == old(self).committed_at(s),
            forall|s: int| final(self).observed_at(s) == old(self).observed_at(s),
            forall|id: int| final(self).promised(id) == old(self).promised(id),
            final(self).promise_count() == old(self).promise_count(),
    {
        let slot = self.next_slot;
        let acks = QuorumTracker::new(self.cluster_size);
        self.pending.push(Some(PendingSlot { value, acks }));
        self.next_slot = self.next_slot + 1;
        proof {
            assert forall|s: int|
                s != slot as int implies #[trigger] self.pending_cell(s) == old(self).pending_cell(
                s,
            ) by {
                if 0 <= s < old(self).pending@.len() {
                    assert(self.pending@[s] == old(self).pending@[s]);
                }
            }
        }
        slot
    }

    /// Start a round under `new_ballot`: back to phase 1 with promise
    /// tracking, observations, and per-slot acknowledgement counts reset,
    /// while the pending values themselves are kept for re-proposal.
    fn begin_round(&mut self, new_ballot: Ballot)
        requires
            old(self).wf(),
            new_ballot.proposer_id == old(self).id_spec(),
        ensures
            final(self).wf(),
            final(self).current_ballot == new_ballot,
            final(self).phase == Phase::Preparing,
            final(self).proposer_id == old(self).proposer_id,
            final(self).cluster_size == old(self).cluster_size,
            final(self).next_slot == old(self).next_slot,
            final(self).log == old(self).log,
            final(self).promise_count() == 0,
            forall|id: int| !final(self).promised(id),
            forall|s: int| final(self).observed_at(s) is None,
            forall|s: int| final(self).pending_value_at(s) == old(self).pending_value_at(s),
            forall|s: int, id: int| !final(self).acked(s, id),
            forall|s: int| final(self).ack_count(s) == 0,
    {
        self.current_ballot = new_ballot;
        self.phase = Phase::Preparing;
        self.promises = QuorumTracker::new(self.cluster_size);
        self.observed = Vec::new();
        let ghost pre = *self;
        let mut i: usize = 0;
        while i < self.pending.len()
            invariant
                self.proposer_id == pre.proposer_id,
                self.cluster_size == pre.cluster_size,
                self.phase == pre.phase,
                self.current_ballot == pre.current_ballot,
                self.next_slot == pre.next_slot,
                self.promises == pre.promises,
                self.observed == pre.observed,
                self.log == pre.log,
                self.pending@.len() == pre.pending@.len(),
                self.cluster_size >= 1,
                i <= self.pending@.len(),
                forall|s: int| i <= s < self.pending@.len() ==> self.pending@[s] == pre.pending@[s],
                forall|s: int|
                    0 <= s < i ==> {
                        &&& (self.pending@[s] is Some <==> pre.pending@[s] is Some)
                        &&& (#[trigger] self.pending@[s] matches Some(p) ==> pre.pending@[s]
                            matches Some(q) && p.value == q.value && p.acks.wf()
                            && p.acks.cluster() == self.cluster_size as int && p.acks.count_spec()
                            == 0 && (forall|id: int| !p.acks.responded(id)))
                    },
            decreases self.pending@.len() - i,
        {
            let mut cell: Option<PendingSlot> = None;
            self.pending.set_and_swap(i, &mut cell);
            let renewed = match cell {
                Some(p) => Some(
                    PendingSlot { value: p.value, acks: QuorumTracker::new(self.cluster_size) },
                ),
                None => None,
            };
            self.pending.set(i, renewed);
            i = i + 1;
        }
    }

    /// Move to phase 1 under a fresh, strictly greater ballot and return the
    /// prepare message to broadcast. Triggered by admission of new values or
    /// by an external liveness signal that this proposer must (re)establish
    /// leadership.
    pub fn start_prepare(&mut self) -> (p: Prepare)
        requires
            old(self).wf(),
            old(self).ballot_spec().round < u64::MAX,
        ensures
            final(self).wf(),
            final(self).phase_spec() == Phase::Preparing,
            final(self).ballot_spec().round == old(self).ballot_spec().round + 1,
            final(self).ballot_spec().proposer_id == old(self).id_spec(),
            old(self).ballot_spec().lt(final(self).ballot_spec()),
            p == (Prepare { ballot: final(self).ballot_spec() }),
            final(self).id_spec() == old(self).id_spec(),
            final(self).cluster() == old(self).cluster(),
            final(self).next_slot_spec() == old(self).next_slot_spec(),
            forall|s: int| final(self).committed_at(s) == old(self).committed_at(s),
            final(self).promise_count() == 0,
            forall|id: int| !final(self).promised(id),
            forall|s: int| final(self).observed_at(s) is None,
            forall|s: int| final(self).pending_value_at(s) == old(self).pending_value_at(s),
            forall|s: int, id: int| !final(self).acked(s, id),
            forall|s: int| final(self).ack_count(s) == 0,
    {
        let round = self.current_ballot.round + 1;
        let ballot = Ballot { round, proposer_id: self.proposer_id };
        self.begin_round(ballot);
        Prepare { ballot }
    }

    /// Phase 2, one response: count an accepted confirmation for `slot`.
    /// The response is a no-op unless the session is accepting, the ballot is
    /// the current one, and `value` is what the session proposes for `slot`
    /// (so late responses of an abandoned round, duplicates, and replays
    /// after commit all change nothing). The slot commits exactly when the
    /// counted confirmations, deduplicated by acceptor, reach quorum; the
    /// committed value is then recorded and the slot's tracking is evicted.
    pub fn handle_accepted(
        &mut self,
        acceptor_id: usize,
        ballot: Ballot,
        slot: usize,
        value: u64,
    ) -> (committed: bool)
        requires
            old(self).wf(),
            acceptor_id < old(self).cluster(),
            slot < usize::MAX,
        ensures
            final(self).wf(),
            forall|s: int|
                old(self).committed_at(s) is Some ==> final(self).committed_at(s)
                    == old(self).committed_at(s),
            !(old(self).phase_spec() == Phase::Accepting && ballot == old(self).ballot_spec()
                && old(self).pending_value_at(slot as int) == Some(value)) ==> !committed
                && same_session(*old(self), *final(self)),
            (old(self).phase_spec() == Phase::Accepting && ballot == old(self).ballot_spec()
                && old(self).pending_value_at(slot as int) == Some(value)) ==> ({
                let cnt = old(self).ack_count(slot as int) + (if old(self).acked(
                    slot as int,
                    acceptor_id as int,
                ) {
                    0int
                } else {
                    1int
                });
                &&& committed == (cnt >= spec_quorum(old(self).cluster()))
                &&& final(self).phase_spec() == old(self).phase_spec()
                &&& final(self).ballot_spec() == old(self).ballot_spec()
                &&& final(self).id_spec() == old(self).id_spec()
                &&& final(self).cluster() == old(self).cluster()
                &&& final(self).next_slot_spec() == old(self).next_slot_spec()
                &&& forall|s: int|
                    s != slot ==> final(self).pending_value_at(s) == old(self).pending_value_at(s)
                &&& forall|s: int, id: int|
                    s != slot ==> final(self).acked(s, id) == old(self).acked(s, id)
                &&& forall|s: int| s != slot ==> final(self).ack_count(s) == old(self).ack_count(s)
                &&& forall|s: int|
                    s != slot ==> final(self).committed_at(s) == old(self).committed_at(s)
                &&& forall|s: int| final(self).observed_at(s) == old(self).observed_at(s)
                &&& forall|id: int| final(self).promised(id) == old(self).promised(id)
                &&& final(self).promise_count() == old(self).promise_count()
                &&& (committed ==> {
                    &&& final(self).committed_at(slot as int) == Some(value)
                    &&& final(self).pending_value_at(slot as int) is None
                    &&& final(self).ack_count(slot as int) == 0
                    &&& forall|id: int| !final(self).acked(slot as int, id)
                })
                &&& (!committed ==> {
                    &&& final(self).committed_at(slot as int) is None
                    &&& final(self).pending_value_at(slot as int) == Some(value)
                    &&& final(self).acked(slot as int, acceptor_id as int)
                    &&& forall|id: int|
                        id != acceptor_id ==> final(self).acked(slot as int, id)
                            == old(self).acked(slot as int, id)
                    &&& final(self).ack_count(slot as int) == cnt
                })
            }),
    {
        match self.phase {
            Phase::Accepting => {},
            _ => {
                return false;
            },
        }
        if !(self.current_ballot == ballot) {
            return false;
        }
        if slot >= self.pending.len() {
            return false;
        }
        let ghost pre = *old(self);
        let mut cell: Option<PendingSlot> = None;
        self.pending.set_and_swap(slot, &mut cell);
        proof {
            assert(pre.pending_cell(slot as int) == cell);
        }
        match cell {
            None => {
                proof {
                    assert(self.pending@ =~= pre.pending@);
                    assert(forall|s: int| #[trigger] self.pending_cell(s) == pre.pending_cell(s));
                }
                false
            },
            Some(mut p) => {
                if p.value != value {
                    self.pending.set(slot, Some(p));
                    proof {
                        assert(self.pending@ =~= pre.pending@);
                        assert(forall|s: int|
                            #[trigger] self.pending_cell(s) == pre.pending_cell(s));
                    }
                    false
                } else {
                    let _newly = p.acks.record(acceptor_id);
                    if p.acks.has_quorum() {
                        let _fresh = self.log.commit(slot, value);
                        proof {
                            assert(forall|s: int|
                                s != slot ==> #[trigger] self.pending_cell(s)
                                    == pre.pending_cell(s));
                            assert(self.pending_cell(slot as int) is None);
                        }
                        true
                    } else {
                        self.pending.set(slot, Some(p));
                        proof {
                            assert(forall|s: int|
                                s != slot ==> #[trigger] self.pending_cell(s)
                                    == pre.pending_cell(s));
                            assert(self.pending_cell(slot as int) == Some(p));
                        }
                        false
                    }
                }
            },
        }
    }

    /// Grow the observation table to cover `e.slot` and fold `e` in.
    fn observe(&mut self, e: LogEntry)
        requires
            e.slot < usize::MAX,
        ensures
            final(self).observed_at(e.slot as int) == obs_plus_entry(
                old(self).observed_at(e.slot as int),
                e,
            ),
            forall|s: int| s != e.slot ==> final(self).observed_at(s) == old(self).observed_at(s),
            final(self).proposer_id == old(self).proposer_id,
            final(self).cluster_size == old(self).cluster_size,
            final(self).phase == old(self).phase,
            final(self).current_ballot == old(self).current_ballot,
            final(self).next_slot == old(self).next_slot,
            final(self).pending == old(self).pending,
            final(self).promises == old(self).promises,
            final(self).log == old(self).log,
    {
        while self.observed.len() <= e.slot
            invariant
                e.slot < usize::MAX,
                self.observed@.len() >= old(self).observed@.len(),
                forall|s: int|
                    0 <= s < old(self).observed@.len() ==> self.observed@[s] == old(
                        self,
                    ).observed@[s],
                forall|s: int|
                    old(self).observed@.len() <= s < self.observed@.len() ==> self.observed@[s]
                        is None,
                self.proposer_id == old(self).proposer_id,
                self.cluster_size == old(self).cluster_size,
                self.phase == old(self).phase,
                self.current_ballot == old(self).current_ballot,
                self.next_slot == old(self).next_slot,
                self.pending == old(self).pending,
                self.promises == old(self).promises,
                self.log == old(self).log,
            decreases e.slot + 1 - self.observed@.len(),
        {
            self.observed.push(None);
        }
        let updated = match &self.observed[e.slot] {
            None => Some(Acceptance { ballot: e.ballot, value: e.value }),
            Some(a) => if e.ballot.gt(&a.ballot) {
                Some(Acceptance { ballot: e.ballot, value: e.value })
            } else {
                Some(*a)
            },
        };
        self.observed.set(e.slot, updated);
    }

    /// Phase-2 entry: overwrite each pending value with the round's adopted
    /// observation for its slot, where one exists.
    fn adopt(&mut self)
        requires
            old(self).wf(),
        ensures
            final(self).wf(),
            forall|s: int|
                final(self).pending_value_at(s) == (match old(self).pending_value_at(s) {
                    Some(v0) => Some(
                        match old(self).observed_at(s) {
                            Some(a) => a.value,
                            None => v0,
                        },
                    ),
                    None => None,
                }),
            forall|s: int, id: int| final(self).acked(s, id) == old(self).acked(s, id),
            forall|s: int| final(self).ack_count(s) == old(self).ack_count(s),
            final(self).proposer_id == old(self).proposer_id,
            final(self).cluster_size == old(self).cluster_size,
            final(self).phase == old(self).phase,
            final(self).current_ballot == old(self).current_ballot,
            final(self).next_slot == old(self).next_slot,
            final(self).promises == old(self).promises,
            final(self).observed == old(self).observed,
            final(self).log == old(self).log,
    {
        let ghost pre = *old(self);
        let mut i: usize = 0;
        while i < self.pending.len()
            invariant
                i <= self.pending@.len(),
                self.pending@.len() == pre.pending@.len(),
                forall|s: int| i <= s < self.pending@.len() ==> self.pending@[s] == pre.pending@[s],
                forall|s: int|
                    0 <= s < i ==> {
                        &&& (self.pending@[s] is Some <==> pre.pending@[s] is Some)
                        &&& (#[trigger] self.pending@[s] matches Some(p) ==> pre.pending@[s]
                            matches Some(q) && p.acks == q.acks && p.value == (match pre.observed_at(
                            s,
                        ) {
                            Some(a) => a.value,
                            None => q.value,
                        }))
                    },
                self.proposer_id == pre.proposer_id,
                self.cluster_size == pre.cluster_size,
                self.phase == pre.phase,
                self.current_ballot == pre.current_ballot,
                self.next_slot == pre.next_slot,
                self.promises == pre.promises,
                self.observed == pre.observed,
                self.log == pre.log,
            decreases self.pending@.len() - i,
        {
            let mut cell: Option<PendingSlot> = None;
            self.pending.set_and_swap(i, &mut cell);
            let renewed = match cell {
                Some(p) => {
                    let obs = if i < self.observed.len() {
                        self.observed[i]
                    } else {
                        None
                    };
                    let adopted = match obs {
                        Some(a) => a.value,
                        None => p.value,
                    };
                    Some(PendingSlot { value: adopted, acks: p.acks })
                },
                None => None,
            };
            self.pending.set(i, renewed);
            i = i + 1;
        }
        proof {
            assert(forall|s: int|
                (#[trigger] self.pending_cell(s)) is Some <==> pre.pending_cell(s) is Some);
        }
    }

    /// Phase 1, one response: count a promise for the current ballot, after
    /// folding in the acceptances it reports. A no-op unless the session is
    /// preparing under exactly `ballot` (a late promise of an abandoned
    /// round is discarded, never merged into a newer round). When the
    /// counted promises reach quorum the session moves to phase 2, adopting
    /// for every pending slot the reported value with the highest ballot if
    /// the round surfaced one — the safety-critical step that overrides the
    /// original client value.
    pub fn handle_promise(
        &mut self,
        acceptor_id: usize,
        ballot: Ballot,
        accepted: &Vec<LogEntry>,
    ) -> (now_accepting: bool)
        requires
            old(self).wf(),
            acceptor_id < old(self).cluster(),
            forall|i: int| 0 <= i < accepted@.len() ==> (#[trigger] accepted@[i]).slot < usize::MAX,
        ensures
            final(self).wf(),
            !(old(self).phase_spec() == Phase::Preparing && ballot == old(self).ballot_spec())
                ==> !now_accepting && same_session(*old(self), *final(self)),
            (old(self).phase_spec() == Phase::Preparing && ballot == old(self).ballot_spec())
                ==> ({
                let cnt = old(self).promise_count() + (if old(self).promised(acceptor_id as int) {
                    0int
                } else {
                    1int
                });
                &&& final(self).id_spec() == old(self).id_spec()
                &&& final(self).cluster() == old(self).cluster()
                &&& final(self).ballot_spec() == old(self).ballot_spec()
                &&& final(self).next_slot_spec() == old(self).next_slot_spec()
                &&& forall|s: int| final(self).committed_at(s) == old(self).committed_at(s)
                &&& final(self).promised(acceptor_id as int)
                &&& forall|id: int|
                    id != acceptor_id ==> final(self).promised(id) == old(self).promised(id)
                &&& final(self).promise_count() == cnt
                &&& forall|s: int|
                    final(self).observed_at(s) == obs_after(old(self).observed_at(s), s, accepted@)
                &&& now_accepting == (cnt >= spec_quorum(old(self).cluster()))
                &&& final(self).phase_spec() == (if now_accepting {
                    Phase::Accepting
                } else {
                    Phase::Preparing
                })
                &&& forall|s: int, id: int| final(self).acked(s, id) == old(self).acked(s, id)
                &&& forall|s: int| final(self).ack_count(s) == old(self).ack_count(s)
                &&& (now_accepting ==> forall|s: int|
                    final(self).pending_value_at(s) == (match old(self).pending_value_at(s) {
                        Some(v0) => Some(
                            match final(self).observed_at(s) {
                                Some(a) => a.value,
                                None => v0,
                            },
                        ),
                        None => None,
                    }))
                &&& (!now_accepting ==> forall|s: int|
                    final(self).pending_value_at(s) == old(self).pending_value_at(s))
            }),
    {
        match self.phase {
            Phase::Preparing => {},
            _ => {
                return false;
            },
        }
        if !(self.current_ballot == ballot) {
            return false;
        }
        let ghost pre = *old(self);
        let mut i: usize = 0;
        while i < accepted.len()
            invariant
                i <= accepted@.len(),
                forall|k: int|
                    0 <= k < accepted@.len() ==> (#[trigger] accepted@[k]).slot < usize::MAX,
                forall|s: int|
                    self.observed_at(s) == obs_after(
                        pre.observed_at(s),
                        s,
                        accepted@.take(i as int),
                    ),
                self.proposer_id == pre.proposer_id,
                self.cluster_size == pre.cluster_size,
                self.phase == pre.phase,
                self.current_ballot == pre.current_ballot,
                self.next_slot == pre.next_slot,
                self.pending == pre.pending,
                self.promises == pre.promises,
                self.log == pre.log,
            decreases accepted@.len() - i,
        {
            let ghost mid = *self;
            let e = accepted[i];
            self.observe(e);
            proof {
                assert(accepted@.take(i as int + 1).drop_last() =~= accepted@.take(i as int));
                assert(accepted@.take(i as int + 1).last() == accepted@[i as int]);
                assert(forall|s: int|
                    #[trigger] obs_after(pre.observed_at(s), s, accepted@.take(i as int + 1))
                        == if accepted@[i as int].slot == s {
                        obs_plus_entry(obs_after(pre.observed_at(s), s, accepted@.take(i as int)), e)
                    } else {
                        obs_after(pre.observed_at(s), s, accepted@.take(i as int))
                    });
            }
            i = i + 1;
        }
        proof {
            assert(accepted@.take(accepted@.len() as int) =~= accepted@);
        }
        let ghost merged = *self;
        let newly = self.promises.record(acceptor_id);
        proof {
            assert(forall|s: int| #[trigger] self.pending_cell(s) == pre.pending_cell(s));
            assert(forall|s: int| #[trigger] self.observed_at(s) == merged.observed_at(s));
            assert(forall|s: int|
                #[trigger] self.observed_at(s) == obs_after(pre.observed_at(s), s, accepted@));
            assert(forall|s: int|
                #[trigger] self.pending_value_at(s) == pre.pending_value_at(s));
            assert(forall|s: int, id: int| #[trigger] self.acked(s, id) == pre.acked(s, id));
            assert(forall|s: int| #[trigger] self.ack_count(s) == pre.ack_count(s));
        }
        if self.promises.has_quorum() {
            self.adopt();
            let ghost adopted_state = *self;
            self.phase = Phase::Accepting;
            proof {
                assert(forall|s: int|
                    #[trigger] self.pending_cell(s) == adopted_state.pending_cell(s));
                assert(forall|s: int|
                    #[trigger] self.observed_at(s) == adopted_state.observed_at(s));
                assert(forall|s: int| #[trigger] self.observed_at(s) == merged.observed_at(s));
                assert(forall|s: int|
                    #[trigger] self.observed_at(s) == obs_after(pre.observed_at(s), s, accepted@));
                assert(forall|s: int|
                    #[trigger] self.pending_value_at(s) == adopted_state.pending_value_at(s));
                assert(forall|s: int, id: int|
                    #[trigger] self.acked(s, id) == adopted_state.acked(s, id));
                assert(forall|s: int| #[trigger] self.ack_count(s) == adopted_state.ack_count(s));
            }
            true
        } else {
            false
        }
    }

    /// Preemption: a phase-1 rejection carrying a ballot above the current
    /// one forces a new round with a strictly greater ballot; the prepare to
    /// broadcast is returned. A rejection at or below the current ballot is
    /// a no-op.
    pub fn handle_prepare_reject(&mut self, current: Ballot) -> (p: Option<Prepare>)
        requires
            old(self).wf(),
            current.round < u64::MAX,
        ensures
            final(self).wf(),
            !old(self).ballot_spec().lt(current) ==> p is None && *final(self) == *old(self),
            old(self).ballot_spec().lt(current) ==> ({
                &&& final(self).phase_spec() == Phase::Preparing
                &&& final(self).ballot_spec().round == current.round + 1
                &&& final(self).ballot_spec().proposer_id == old(self).id_spec()
                &&& current.lt(final(self).ballot_spec())
                &&& old(self).ballot_spec().lt(final(self).ballot_spec())
                &&& p == Some(Prepare { ballot: final(self).ballot_spec() })
                &&& final(self).id_spec() == old(self).id_spec()
                &&& final(self).cluster() == old(self).cluster()
                &&& final(self).next_slot_spec() == old(self).next_slot_spec()
                &&& forall|s: int| final(self).committed_at(s) == old(self).committed_at(s)
                &&& final(self).promise_count() == 0
                &&& forall|id: int| !final(self).promised(id)
                &&& forall|s: int| final(self).observed_at(s) is None
                &&& forall|s: int|
                    final(self).pending_value_at(s) == old(self).pending_value_at(s)
                &&& forall|s: int, id: int| !final(self).acked(s, id)
                &&& forall|s: int| final(self).ack_count(s) == 0
            }),
    {
        if current.gt(&self.current_ballot) {
            let ballot = Ballot { round: current.round + 1, proposer_id: self.proposer_id };
            self.begin_round(ballot);
            Some(Prepare { ballot })
        } else {
            None
        }
    }

    /// Preemption from phase 2: identical to a phase-1 rejection. Uncommitted
    /// pending slots will be re-proposed once the new prepare round reaches
    /// quorum, adopting whatever values that round surfaces.
    pub fn handle_accept_reject(&mut self, current: Ballot) -> (p: Option<Prepare>)
        requires
            old(self).wf(),
            current.round < u64::MAX,
        ensures
            final(self).wf(),
            !old(self).ballot_spec().lt(current) ==> p is None && *final(self) == *old(self),
            old(self).ballot_spec().lt(current) ==> ({
                &&& final(self).phase_spec() == Phase::Preparing
                &&& final(self).ballot_spec().round == current.round + 1
                &&& final(self).ballot_spec().proposer_id == old(self).id_spec()
                &&& current.lt(final(self).ballot_spec())
                &&& old(self).ballot_spec().lt(final(self).ballot_spec())
                &&& p == Some(Prepare { ballot: final(self).ballot_spec() })
                &&& final(self).id_spec() == old(self).id_spec()
                &&& final(self).cluster() == old(self).cluster()
                &&& final(self).next_slot_spec() == old(self).next_slot_spec()
                &&& forall|s: int| final(self).committed_at(s) == old(self).committed_at(s)
                &&& final(self).promise_count() == 0
                &&& forall|id: int| !final(self).promised(id)
                &&& forall|s: int| final(self).observed_at(s) is None
                &&& forall|s: int|
                    final(self).pending_value_at(s) == old(self).pending_value_at(s)
                &&& forall|s: int, id: int| !final(self).acked(s, id)
                &&& forall|s: int| final(self).ack_count(s) == 0
            }),
    {
        if current.gt(&self.current_ballot) {
            let ballot = Ballot { round: current.round + 1, proposer_id: self.proposer_id };
            self.begin_round(ballot);
            Some(Prepare { ballot })
        } else {
            None
        }
    }

    /// The accept messages of the current round: one per pending slot, in
    /// slot order, each carrying the current ballot and the slot's (possibly
    /// adopted) value.
    pub fn accepts_to_send(&self) -> (v: Vec<Accept>)
        requires
            self.wf(),
            self.phase_spec() == Phase::Accepting,
        ensures
            forall|i: int|
                0 <= i < v@.len() ==> {
                    let a = #[trigger] v@[i];
                    a.ballot == self.ballot_spec() && self.pending_value_at(a.slot as int) == Some(
                        a.value,
                    )
                },
            forall|s: int|
                #[trigger] self.pending_value_at(s) is Some ==> exists|i: int|
                    0 <= i < v@.len() && #[trigger] v@[i].slot == s,
            forall|i: int, j: int| 0 <= i < j < v@.len() ==> v@[i].slot < v@[j].slot,
    {
        let mut v: Vec<Accept> = Vec::new();
        let mut i: usize = 0;
        while i < self.pending.len()
            invariant
                i <= self.pending@.len(),
                v@ == accepts_from(self.pending@, self.current_ballot, i as int),
            decreases self.pending@.len() - i,
        {
            match &self.pending[i] {
                Some(p) => {
                    v.push(Accept { ballot: self.current_ballot, slot: i, value: p.value });
                },
                None => {},
            }
            assert(v@ =~= accepts_from(self.pending@, self.current_ballot, i as int + 1));
            i = i + 1;
        }
        proof {
            lemma_accepts_from(self.pending@, self.current_ballot, self.pending@.len() as int);
        }
        v
    }

    pub fn proposer_id(&self) -> (r: u64)
        ensures
            r == self.id_spec(),
    {
        self.proposer_id
    }

    pub fn phase(&self) -> (r: Phase)
        ensures
            r == self.phase_spec(),
    {
        self.phase
    }

    pub fn ballot(&self) -> (b: Ballot)
        ensures
            b == self.ballot_spec(),
    {
        self.current_ballot
    }

    pub fn next_slot(&self) -> (r: usize)
        ensures
            r == self.next_slot_spec(),
    {
        self.next_slot
    }

    /// The value the session currently proposes for `slot`, if pending.
    pub fn pending_value(&self, slot: usize) -> (r: Option<u64>)
        ensures
            r == self.pending_value_at(slot as int),
    {
        if slot < self.pending.len() {
            match &self.pending[slot] {
                Some(p) => Some(p.value),
                None => None,
            }
        } else {
            None
        }
    }

    /// The committed value for `slot`, or absent if still pending or never
    /// submitted.
    pub fn committed_value(&self, slot: usize) -> (r: Option<u64>)
        ensures
            r == self.committed_at(slot as int),
    {
        self.log.committed_value(slot)
    }

    /// The committed log itself, for enumeration in slot order.
    pub fn committed_log(&self) -> (l: &CommittedLog)
        ensures
            *l == self.log_spec(),
    {
        &self.log
    }

    /// A round that timed out before reaching quorum: treat it as failed and
    /// retry with a strictly greater round. A no-op when idle.
    pub fn handle_timeout(&mut self) -> (p: Option<Prepare>)
        requires
            old(self).wf(),
            old(self).ballot_spec().round < u64::MAX,
        ensures
            final(self).wf(),
            old(self).phase_spec() == Phase::Idle ==> p is None && *final(self) == *old(self),
            old(self).phase_spec() != Phase::Idle ==> ({
                &&& final(self).phase_spec() == Phase::Preparing
                &&& final(self).ballot_spec().round == old(self).ballot_spec().round + 1
                &&& final(self).ballot_spec().proposer_id == old(self).id_spec()
                &&& old(self).ballot_spec().lt(final(self).ballot_spec())
                &&& p == Some(Prepare { ballot: final(self).ballot_spec() })
                &&& final(self).id_spec() == old(self).id_spec()
                &&& final(self).cluster() == old(self).cluster()
                &&& final(self).next_slot_spec() == old(self).next_slot_spec()
                &&& forall|s: int| final(self).committed_at(s) == old(self).committed_at(s)
                &&& final(self).promise_count() == 0
                &&& forall|id: int| !final(self).promised(id)
                &&& forall|s: int| final(self).observed_at(s) is None
                &&& forall|s: int|
                    final(self).pending_value_at(s) == old(self).pending_value_at(s)
                &&& forall|s: int, id: int| !final(self).acked(s, id)
                &&& forall|s: int| final(self).ack_count(s) == 0
            }),
    {
        match self.phase {
            Phase::Idle => None,
            _ => {
                let pr = self.start_prepare();
                Some(pr)
            },
        }
    }
}

/// The accept messages for the pending slots below `n`, in slot order.
spec fn accepts_from(pending: Seq<Option<PendingSlot>>, ballot: Ballot, n: int) -> Seq<Accept>
    decreases n,
{
    if n <= 0 {
        Seq::empty()
    } else {
        let tail = if 0 <= n - 1 < pending.len() {
            pending[n - 1]
        } else {
            None
        };
        accepts_from(pending, ballot, n - 1) + match tail {
            Some(p) => seq![Accept { ballot, slot: (n - 1) as usize, value: p.value }],
            None => Seq::empty(),
        }
    }
}

/// `accepts_from` enumerates exactly the pending slots below `n`, in
/// strictly increasing slot order, with their values and the given ballot.
proof fn lemma_accepts_from(pending: Seq<Option<PendingSlot>>, ballot: Ballot, n: int)
    requires
        0 <= n <= pending.len(),
        n <= usize::MAX,
    ensures
        forall|i: int|
            0 <= i < accepts_from(pending, ballot, n).len() ==> {
                let a = #[trigger] accepts_from(pending, ballot, n)[i];
                &&& a.ballot == ballot
                &&& a.slot < n
                &&& 0 <= a.slot < pending.len()
                &&& pending[a.slot as int] matches Some(p) && p.value == a.value
            },
        forall|s: int|
            0 <= s < n && #[trigger] pending[s] is Some ==> exists|i: int|
                0 <= i < accepts_from(pending, ballot, n).len() && #[trigger] accepts_from(
                    pending,
                    ballot,
                    n,
                )[i].slot == s,
        forall|i: int, j: int|
            0 <= i < j < accepts_from(pending, ballot, n).len() ==> accepts_from(
                pending,
                ballot,
                n,
            )[i].slot < accepts_from(pending, ballot, n)[j].slot,
    decreases n,
{
    if n > 0 {
        lemma_accepts_from(pending, ballot, n - 1);
        let prev = accepts_from(pending, ballot, n - 1);
        let cur = accepts_from(pending, ballot, n);
        assert(forall|i: int| 0 <= i < prev.len() ==> cur[i] == prev[i]);
        if pending[n - 1] is Some {
            assert(cur[cur.len() - 1].slot == n - 1);
            assert forall|s: int| 0 <= s < n && #[trigger] pending[s] is Some implies exists|i: int|
                0 <= i < cur.len() && #[trigger] cur[i].slot == s by {
                if s < n - 1 {
                    let i = choose|i: int| 0 <= i < prev.len() && #[trigger] prev[i].slot == s;
                    assert(cur[i].slot == s);
                } else {
                    assert(cur[cur.len() - 1].slot == s);
                }
            }
        } else {
            assert(cur =~= prev);
        }
    }
}

/// Observation `o` is dominated by a report of `v` at ballot `b`: it is
/// absent, carries a lower ballot, or carries `b` itself with value `v`.
pub open spec fn dominated_by(o: Option<Acceptance>, b: Ballot, v: u64) -> bool {
    match o {
        None => true,
        Some(a) => a.ballot.le(b) && (a.ballot == b ==> a.value == v),
    }
}

/// Folding reports dominated by (b, v) into a dominated observation leaves
/// it dominated.
proof fn lemma_obs_after_dominated(
    prior: Option<Acceptance>,
    slot: int,
    reports: Seq<LogEntry>,
    b: Ballot,
    v: u64,
)
    requires
        dominated_by(prior, b, v),
        forall|i: int|
            0 <= i < reports.len() && (#[trigger] reports[i]).slot == slot ==> reports[i].ballot.le(
                b,
            ) && (reports[i].ballot == b ==> reports[i].value == v),
    ensures
        dominated_by(obs_after(prior, slot, reports), b, v),
    decreases reports.len(),
{
    if reports.len() > 0 {
        lemma_obs_after_dominated(prior, slot, reports.drop_last(), b, v);
        assert(reports[reports.len() - 1] == reports.last());
    }
}

/// Once a report at ballot `b` for `slot` has been folded in, the
/// observation for `slot` carries a ballot at least `b`.
proof fn lemma_obs_after_at_least(
    prior: Option<Acceptance>,
    slot: int,
    reports: Seq<LogEntry>,
    b: Ballot,
)
    requires
        exists|i: int|
            0 <= i < reports.len() && (#[trigger] reports[i]).slot == slot && reports[i].ballot
                == b,
    ensures
        obs_after(prior, slot, reports) matches Some(a) && b.le(a.ballot),
    decreases reports.len(),
{
    let last = reports.last();
    let wit = choose|i: int|
        0 <= i < reports.len() && (#[trigger] reports[i]).slot == slot && reports[i].ballot == b;
    if wit < reports.len() - 1 {
        assert(reports.drop_last()[wit] == reports[wit]);
        lemma_obs_after_at_least(prior, slot, reports.drop_last(), b);
    } else {
        assert(last.slot == slot && last.ballot == b);
    }
}

/// Value adoption: if some acceptor reported value `v` at ballot `b` for
/// `slot`, every report for `slot` carries a ballot at most `b`, reports at
/// ballot `b` itself agree on `v`, and the prior observation (if any) is
/// dominated as well, then the folded observation for `slot` is exactly
/// (b, v) — so phase 2 proposes `v` there, not the original client value.
pub proof fn lemma_value_adoption(
    prior: Option<Acceptance>,
    reports: Seq<LogEntry>,
    slot: int,
    b: Ballot,
    v: u64,
)
    requires
        dominated_by(prior, b, v),
        exists|i: int|
            0 <= i < reports.len() && (#[trigger] reports[i]).slot == slot && reports[i].ballot
                == b && reports[i].value == v,
        forall|i: int|
            0 <= i < reports.len() && (#[trigger] reports[i]).slot == slot ==> reports[i].ballot.le(
                b,
            ) && (reports[i].ballot == b ==> reports[i].value == v),
    ensures
        obs_after(prior, slot, reports) == Some(Acceptance { ballot: b, value: v }),
{
    lemma_obs_after_dominated(prior, slot, reports, b, v);
    lemma_obs_after_at_least(prior, slot, reports, b);
}

} // verus!
