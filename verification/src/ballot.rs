//! Proposal identities and their total order.

use vstd::prelude::*;

verus! {

/// A proposal identity: ordered by round number first, with the proposer's
/// id breaking ties. The order is total, which is what lets acceptors
/// resolve races between competing proposers deterministically.
#[derive(Clone, Copy, PartialEq, Eq, Structural, Debug)]
pub struct Ballot {
    pub round: u64,
    pub proposer_id: u64,
}

/// Outcome of comparing two ballots.
#[derive(Clone, Copy, PartialEq, Eq, Structural, Debug)]
pub enum BallotOrder {
    Less,
    Equal,
    Greater,
}

impl Ballot {
    /// Strict order: rounds compare first, proposer ids break ties.
    pub open spec fn lt(self, other: Ballot) -> bool {
        self.round < other.round || (self.round == other.round
            && self.proposer_id < other.proposer_id)
    }

    pub open spec fn le(self, other: Ballot) -> bool {
        self.lt(other) || self == other
    }

    /// Compare two ballots: round first, proposer id second.
    pub fn compare(&self, other: &Ballot) -> (r: BallotOrder)
        ensures
            r == BallotOrder::Less <==> self.lt(*other),
            r == BallotOrder::Greater <==> other.lt(*self),
            r == BallotOrder::Equal <==> *self == *other,
    {
        if self.round < other.round {
            BallotOrder::Less
        } else if self.round > other.round {
            BallotOrder::Greater
        } else if self.proposer_id < other.proposer_id {
            BallotOrder::Less
        } else if self.proposer_id > other.proposer_id {
            BallotOrder::Greater
        } else {
            BallotOrder::Equal
        }
    }

    /// `self >= other` in ballot order: the acceptance predicate.
    pub fn ge(&self, other: &Ballot) -> (r: bool)
        ensures
            r == other.le(*self),
    {
        match self.compare(other) {
            BallotOrder::Less => false,
            BallotOrder::Equal => true,
            BallotOrder::Greater => true,
        }
    }

    /// `self > other` in ballot order.
    pub fn gt(&self, other: &Ballot) -> (r: bool)
        ensures
            r == other.lt(*self),
    {
        match self.compare(other) {
            BallotOrder::Less => false,
            BallotOrder::Equal => false,
            BallotOrder::Greater => true,
        }
    }
}

/// The larger of two ballots; the value an acceptor's highest-seen ballot
/// takes after it handles a message carrying `b`.
pub open spec fn max_ballot(a: Ballot, b: Ballot) -> Ballot {
    if a.le(b) {
        b
    } else {
        a
    }
}

/// Ballot order is a strict total order: irreflexive, asymmetric,
/// transitive, and total.
pub proof fn lemma_ballot_order_total(a: Ballot, b: Ballot, c: Ballot)
    ensures
        !a.lt(a),
        a.lt(b) ==> !b.lt(a),
        a.lt(b) && b.lt(c) ==> a.lt(c),
        a.lt(b) || b.lt(a) || a == b,
{
}

} // verus!
