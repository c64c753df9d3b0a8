//! The typed messages the proposer and the acceptors exchange.
//!
//! The transport that carries them is an external collaborator; it may drop,
//! reorder or duplicate any of them, and the handlers in this crate are
//! specified to stay safe under all three.

use vstd::prelude::*;
use crate::ballot::Ballot;

verus! {

/// What an acceptor has accepted for one slot: the value and the ballot it
/// was accepted under. Promises carry these so a new proposer can adopt
/// values that may already be partially committed.
#[derive(Clone, Copy, PartialEq, Eq, Structural, Debug)]
pub struct LogEntry {
    pub ballot: Ballot,
    pub slot: usize,
    pub value: u64,
}

/// Phase-1 request: establish `ballot` as current at the acceptors.
#[derive(Clone, Copy, PartialEq, Eq, Structural, Debug)]
pub struct Prepare {
    pub ballot: Ballot,
}

/// Phase-1 answer from one acceptor.
#[derive(Debug)]
pub enum PrepareReply {
    /// The acceptor promises not to accept anything below `ballot` and
    /// reports every (slot, ballot, value) it has accepted so far.
    Promise { ballot: Ballot, accepted: Vec<LogEntry> },
    /// The prepare's ballot was stale; `current` is the acceptor's
    /// highest-seen ballot, letting the proposer fast-forward its round.
    Reject { current: Ballot },
}

/// Phase-2 request: accept `value` at `slot` under `ballot`.
#[derive(Clone, Copy, PartialEq, Eq, Structural, Debug)]
pub struct Accept {
    pub ballot: Ballot,
    pub slot: usize,
    pub value: u64,
}

/// Phase-2 answer from one acceptor.
#[derive(Clone, Copy, PartialEq, Eq, Structural, Debug)]
pub enum AcceptReply {
    /// The acceptor recorded `value` at `slot` under `ballot`.
    Accepted { ballot: Ballot, slot: usize, value: u64 },
    /// The accept's ballot was stale; `current` is the acceptor's
    /// highest-seen ballot.
    Rejected { current: Ballot },
}

} // verus!
