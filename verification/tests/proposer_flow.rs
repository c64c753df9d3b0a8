use paxos_core::acceptor::AcceptorReplica;
use paxos_core::ballot::Ballot;
use paxos_core::messages::{AcceptReply, LogEntry, PrepareReply};
use paxos_core::proposer::{Phase, ProposerSession};

fn ballot(round: u64, proposer_id: u64) -> Ballot {
    Ballot { round, proposer_id }
}

/// Run the prepare round of `p` against `acceptors`, delivering every reply.
/// Returns the prepare's ballot.
fn run_prepare(p: &mut ProposerSession, acceptors: &mut [AcceptorReplica]) -> Ballot {
    let prepare = p.start_prepare();
    for a in acceptors.iter_mut() {
        match a.handle_prepare(prepare.ballot) {
            PrepareReply::Promise { ballot, accepted } => {
                let id = a.id() as usize;
                p.handle_promise(id, ballot, &accepted);
            },
            PrepareReply::Reject { current } => {
                p.handle_prepare_reject(current);
            },
        }
    }
    prepare.ballot
}

#[test]
fn commit_on_quorum_then_late_response_is_noop() {
    // Cluster of 3, value 42 submitted to slot 0; all three acceptors
    // confirm. The slot commits after the second confirmation (quorum = 2);
    // the third, later confirmation is a no-op.
    let mut p = ProposerSession::new(0, 3);
    let mut acceptors = vec![
        AcceptorReplica::new(0),
        AcceptorReplica::new(1),
        AcceptorReplica::new(2),
    ];
    let slot = p.submit(42);
    assert_eq!(slot, 0);
    let b = run_prepare(&mut p, &mut acceptors);
    assert_eq!(p.phase(), Phase::Accepting);

    let accepts = p.accepts_to_send();
    assert_eq!(accepts.len(), 1);
    assert_eq!(accepts[0].slot, 0);
    assert_eq!(accepts[0].value, 42);

    let mut replies = Vec::new();
    for a in acceptors.iter_mut() {
        replies.push(a.handle_accept(b, 0, 42));
    }
    for r in replies.iter() {
        assert!(matches!(r, AcceptReply::Accepted { .. }));
    }

    assert!(!p.handle_accepted(0, b, 0, 42));
    assert_eq!(p.committed_value(0), None);
    assert!(p.handle_accepted(1, b, 0, 42));
    assert_eq!(p.committed_value(0), Some(42));
    // The third response arrives after quorum: nothing changes.
    assert!(!p.handle_accepted(2, b, 0, 42));
    assert_eq!(p.committed_value(0), Some(42));
    assert_eq!(p.committed_log().entries(), vec![(0, 42)]);
}

#[test]
fn replayed_response_does_not_recommit() {
    // A duplicate of an already-counted response never re-triggers commit
    // and never changes the committed value.
    let mut p = ProposerSession::new(0, 3);
    let mut acceptors = vec![
        AcceptorReplica::new(0),
        AcceptorReplica::new(1),
        AcceptorReplica::new(2),
    ];
    p.submit(42);
    let b = run_prepare(&mut p, &mut acceptors);
    assert!(!p.handle_accepted(0, b, 0, 42));
    // Replay of acceptor 0's response: still one distinct acceptor.
    assert!(!p.handle_accepted(0, b, 0, 42));
    assert_eq!(p.committed_value(0), None);
    assert!(p.handle_accepted(1, b, 0, 42));
    assert!(!p.handle_accepted(1, b, 0, 42));
    assert_eq!(p.committed_value(0), Some(42));
}

#[test]
fn commit_with_one_acceptor_offline() {
    // Acceptor 2 is offline; acceptors 0 and 1 answer. Commit still occurs
    // with quorum 2 of 3.
    let mut p = ProposerSession::new(0, 3);
    let mut a0 = AcceptorReplica::new(0);
    let mut a1 = AcceptorReplica::new(1);
    let slot = p.submit(7);
    assert_eq!(slot, 0);

    let prepare = p.start_prepare();
    for a in [&mut a0, &mut a1] {
        match a.handle_prepare(prepare.ballot) {
            PrepareReply::Promise { ballot, accepted } => {
                let id = a.id() as usize;
                p.handle_promise(id, ballot, &accepted);
            },
            PrepareReply::Reject { .. } => panic!("fresh acceptors must promise"),
        }
    }
    assert_eq!(p.phase(), Phase::Accepting);

    let b = prepare.ballot;
    assert!(matches!(a0.handle_accept(b, 0, 7), AcceptReply::Accepted { .. }));
    assert!(matches!(a1.handle_accept(b, 0, 7), AcceptReply::Accepted { .. }));
    assert!(!p.handle_accepted(0, b, 0, 7));
    assert!(p.handle_accepted(1, b, 0, 7));
    assert_eq!(p.committed_value(0), Some(7));
}

#[test]
fn phase_one_adopts_previously_accepted_value() {
    // Acceptors 0 and 1 already hold value 7 at ballot (1, 0) for slot 0. A
    // new proposer with candidate value 99 runs phase 1 at a greater ballot
    // and collects their promises: its phase-2 proposal for slot 0 must be
    // 7, not 99.
    let b1 = ballot(1, 0);
    let mut a0 = AcceptorReplica::new(0);
    let mut a1 = AcceptorReplica::new(1);
    a0.handle_accept(b1, 0, 7);
    a1.handle_accept(b1, 0, 7);

    let mut p = ProposerSession::new(9, 3);
    let slot = p.submit(99);
    assert_eq!(slot, 0);
    let prepare = p.start_prepare();
    assert!(prepare.ballot.gt(&b1));

    for a in [&mut a0, &mut a1] {
        match a.handle_prepare(prepare.ballot) {
            PrepareReply::Promise { ballot, accepted } => {
                assert_eq!(accepted.len(), 1);
                assert_eq!(accepted[0], LogEntry { ballot: b1, slot: 0, value: 7 });
                let id = a.id() as usize;
                p.handle_promise(id, ballot, &accepted);
            },
            PrepareReply::Reject { .. } => panic!("higher ballot must be promised"),
        }
    }
    assert_eq!(p.phase(), Phase::Accepting);
    assert_eq!(p.pending_value(0), Some(7));
    let accepts = p.accepts_to_send();
    assert_eq!(accepts.len(), 1);
    assert_eq!(accepts[0].value, 7);
}

#[test]
fn rejection_preempts_with_strictly_greater_round() {
    let mut p = ProposerSession::new(0, 3);
    p.submit(5);
    p.start_prepare();
    assert_eq!(p.ballot(), ballot(1, 0));

    // A rejection carrying a higher ballot forces a new, strictly greater
    // round; the pending value survives for re-proposal.
    let retry = p.handle_prepare_reject(ballot(5, 1)).expect("higher ballot must preempt");
    assert_eq!(retry.ballot, ballot(6, 0));
    assert!(retry.ballot.gt(&ballot(5, 1)));
    assert_eq!(p.phase(), Phase::Preparing);
    assert_eq!(p.pending_value(0), Some(5));

    // A rejection at or below the current ballot is a no-op.
    assert!(p.handle_prepare_reject(ballot(2, 0)).is_none());
    assert_eq!(p.ballot(), ballot(6, 0));
}

#[test]
fn accept_rejection_preempts_accepting_round() {
    let mut p = ProposerSession::new(0, 3);
    let mut acceptors = vec![
        AcceptorReplica::new(0),
        AcceptorReplica::new(1),
        AcceptorReplica::new(2),
    ];
    p.submit(5);
    run_prepare(&mut p, &mut acceptors);
    assert_eq!(p.phase(), Phase::Accepting);

    let retry = p.handle_accept_reject(ballot(9, 2)).expect("higher ballot must preempt");
    assert_eq!(retry.ballot, ballot(10, 0));
    assert_eq!(p.phase(), Phase::Preparing);
    assert_eq!(p.pending_value(0), Some(5));
    assert_eq!(p.committed_value(0), None);
}

#[test]
fn timeout_retries_with_advanced_ballot() {
    let mut p = ProposerSession::new(3, 3);
    assert!(p.handle_timeout().is_none());
    p.submit(1);
    p.start_prepare();
    assert_eq!(p.ballot(), ballot(1, 3));
    let retry = p.handle_timeout().expect("a round in flight must retry");
    assert_eq!(retry.ballot, ballot(2, 3));
    assert_eq!(p.phase(), Phase::Preparing);
}

#[test]
fn stale_ballot_responses_are_discarded() {
    // Responses for an abandoned round are never merged into a newer round's
    // quorum.
    let mut p = ProposerSession::new(0, 3);
    let mut acceptors = vec![
        AcceptorReplica::new(0),
        AcceptorReplica::new(1),
        AcceptorReplica::new(2),
    ];
    p.submit(8);
    let old_ballot = run_prepare(&mut p, &mut acceptors);
    // Preempted before any confirmation arrives.
    p.handle_accept_reject(ballot(4, 1));
    let new_ballot = p.ballot();
    assert!(new_ballot.gt(&old_ballot));

    // Late confirmations for the abandoned round change nothing.
    assert!(!p.handle_accepted(0, old_ballot, 0, 8));
    assert!(!p.handle_accepted(1, old_ballot, 0, 8));
    assert!(!p.handle_accepted(2, old_ballot, 0, 8));
    assert_eq!(p.committed_value(0), None);
}

#[test]
fn stale_promise_is_discarded() {
    let mut p = ProposerSession::new(0, 3);
    p.submit(1);
    let first = p.start_prepare();
    p.handle_prepare_reject(ballot(5, 1)).expect("higher ballot must preempt");
    assert_eq!(p.ballot(), ballot(6, 0));

    // A promise for the abandoned round is discarded, not merged.
    let empty: Vec<LogEntry> = Vec::new();
    assert!(!p.handle_promise(0, first.ballot, &empty));
    // The new round still needs two promises of its own.
    assert!(!p.handle_promise(0, ballot(6, 0), &empty));
    assert!(p.handle_promise(1, ballot(6, 0), &empty));
    assert_eq!(p.phase(), Phase::Accepting);
}

#[test]
fn competing_proposers_agree_on_committed_value() {
    // Proposers 5 and 9 both run round 1 for slot 0 with different values.
    // The tie breaks toward id 9, whose value commits; proposer 5 is
    // preempted, re-prepares, adopts 9's value, and commits the same value:
    // the two logs agree on slot 0.
    let mut acceptors = vec![
        AcceptorReplica::new(0),
        AcceptorReplica::new(1),
        AcceptorReplica::new(2),
    ];
    let mut p5 = ProposerSession::new(5, 3);
    let mut p9 = ProposerSession::new(9, 3);
    p5.submit(55);
    p9.submit(99);

    let prep5 = p5.start_prepare();
    let prep9 = p9.start_prepare();
    assert_eq!(prep5.ballot, ballot(1, 5));
    assert_eq!(prep9.ballot, ballot(1, 9));

    // Acceptors see proposer 5's prepare first, then proposer 9's.
    for a in acceptors.iter_mut() {
        match a.handle_prepare(prep5.ballot) {
            PrepareReply::Promise { ballot, accepted } => {
                let id = a.id() as usize;
                p5.handle_promise(id, ballot, &accepted);
            },
            PrepareReply::Reject { .. } => panic!("fresh acceptors must promise"),
        }
    }
    for a in acceptors.iter_mut() {
        match a.handle_prepare(prep9.ballot) {
            PrepareReply::Promise { ballot, accepted } => {
                let id = a.id() as usize;
                p9.handle_promise(id, ballot, &accepted);
            },
            PrepareReply::Reject { .. } => panic!("the tie must break toward id 9"),
        }
    }
    assert_eq!(p5.phase(), Phase::Accepting);
    assert_eq!(p9.phase(), Phase::Accepting);

    // Proposer 9's accepts land first and commit 99.
    for accept in p9.accepts_to_send() {
        for a in acceptors.iter_mut() {
            match a.handle_accept(accept.ballot, accept.slot, accept.value) {
                AcceptReply::Accepted { ballot, slot, value } => {
                    let id = a.id() as usize;
                    p9.handle_accepted(id, ballot, slot, value);
                },
                AcceptReply::Rejected { .. } => panic!("current ballot must be accepted"),
            }
        }
    }
    assert_eq!(p9.committed_value(0), Some(99));

    // Proposer 5's accepts are all rejected; the rejection preempts it.
    for accept in p5.accepts_to_send() {
        for a in acceptors.iter_mut() {
            match a.handle_accept(accept.ballot, accept.slot, accept.value) {
                AcceptReply::Rejected { current } => {
                    p5.handle_accept_reject(current);
                },
                AcceptReply::Accepted { .. } => panic!("stale ballot must be rejected"),
            }
        }
    }
    assert_eq!(p5.phase(), Phase::Preparing);
    let retry = p5.ballot();
    assert!(retry.gt(&ballot(1, 9)));

    // The retry round surfaces 9's accepted value, which proposer 5 adopts
    // and re-proposes; its own log then commits the same value.
    for a in acceptors.iter_mut() {
        match a.handle_prepare(retry) {
            PrepareReply::Promise { ballot, accepted } => {
                let id = a.id() as usize;
                p5.handle_promise(id, ballot, &accepted);
            },
            PrepareReply::Reject { .. } => panic!("the retry ballot is the highest"),
        }
    }
    assert_eq!(p5.phase(), Phase::Accepting);
    assert_eq!(p5.pending_value(0), Some(99));
    for accept in p5.accepts_to_send() {
        for a in acceptors.iter_mut() {
            match a.handle_accept(accept.ballot, accept.slot, accept.value) {
                AcceptReply::Accepted { ballot, slot, value } => {
                    let id = a.id() as usize;
                    p5.handle_accepted(id, ballot, slot, value);
                },
                AcceptReply::Rejected { .. } => panic!("retry ballot must be accepted"),
            }
        }
    }
    assert_eq!(p5.committed_value(0), Some(99));
    assert_eq!(p5.committed_value(0), p9.committed_value(0));
}

#[test]
fn slots_are_assigned_in_increasing_order() {
    let mut p = ProposerSession::new(0, 3);
    assert_eq!(p.submit(10), 0);
    assert_eq!(p.submit(11), 1);
    assert_eq!(p.submit(12), 2);
    assert_eq!(p.next_slot(), 3);
    assert_eq!(p.pending_value(1), Some(11));
}

#[test]
fn multiple_slots_commit_independently() {
    // Phase 2 for a later slot need not wait for an earlier slot's commit.
    let mut p = ProposerSession::new(0, 3);
    let mut acceptors = vec![
        AcceptorReplica::new(0),
        AcceptorReplica::new(1),
        AcceptorReplica::new(2),
    ];
    p.submit(100);
    p.submit(200);
    let b = run_prepare(&mut p, &mut acceptors);
    let accepts = p.accepts_to_send();
    assert_eq!(accepts.len(), 2);

    // Slot 1 commits first.
    assert!(!p.handle_accepted(0, b, 1, 200));
    assert!(p.handle_accepted(1, b, 1, 200));
    assert_eq!(p.committed_value(1), Some(200));
    assert_eq!(p.committed_value(0), None);

    assert!(!p.handle_accepted(2, b, 0, 100));
    assert!(p.handle_accepted(0, b, 0, 100));
    assert_eq!(p.committed_log().entries(), vec![(0, 100), (1, 200)]);
}
