use paxos_core::acceptor::AcceptorReplica;
use paxos_core::ballot::Ballot;
use paxos_core::messages::{AcceptReply, PrepareReply};

fn ballot(round: u64, proposer_id: u64) -> Ballot {
    Ballot { round, proposer_id }
}

#[test]
fn prepare_promises_at_or_above_highest() {
    let mut a = AcceptorReplica::new(0);
    match a.handle_prepare(ballot(1, 0)) {
        PrepareReply::Promise { ballot: b, accepted } => {
            assert_eq!(b, ballot(1, 0));
            assert!(accepted.is_empty());
        },
        PrepareReply::Reject { .. } => panic!("fresh acceptor must promise"),
    }
    assert_eq!(a.highest_seen(), ballot(1, 0));
}

#[test]
fn prepare_rejects_stale_ballot_with_current() {
    let mut a = AcceptorReplica::new(0);
    a.handle_prepare(ballot(5, 2));
    match a.handle_prepare(ballot(4, 9)) {
        PrepareReply::Reject { current } => assert_eq!(current, ballot(5, 2)),
        PrepareReply::Promise { .. } => panic!("stale prepare must be rejected"),
    }
    assert_eq!(a.highest_seen(), ballot(5, 2));
}

#[test]
fn accept_records_value_and_confirms() {
    let mut a = AcceptorReplica::new(1);
    let r = a.handle_accept(ballot(1, 0), 0, 42);
    assert_eq!(r, AcceptReply::Accepted { ballot: ballot(1, 0), slot: 0, value: 42 });
    let held = a.accepted(0).expect("slot 0 must hold a value");
    assert_eq!(held.ballot, ballot(1, 0));
    assert_eq!(held.value, 42);
}

#[test]
fn tie_ballot_wins_by_proposer_id() {
    // Two competing proposers at round 1, ids 5 and 9: the acceptor compares
    // round first, id second, so (1, 9) wins the tie and the lower-id
    // proposer's accept is rejected.
    let mut a = AcceptorReplica::new(0);
    let r = a.handle_accept(ballot(1, 9), 0, 99);
    assert!(matches!(r, AcceptReply::Accepted { .. }));
    let r = a.handle_accept(ballot(1, 5), 0, 55);
    assert_eq!(r, AcceptReply::Rejected { current: ballot(1, 9) });
    assert_eq!(a.accepted(0).unwrap().value, 99);
}

#[test]
fn highest_seen_never_decreases() {
    let mut a = AcceptorReplica::new(0);
    let mut prev = a.highest_seen();
    a.handle_prepare(ballot(3, 1));
    assert!(a.highest_seen().ge(&prev));
    prev = a.highest_seen();
    a.handle_accept(ballot(2, 1), 0, 7);
    assert!(a.highest_seen().ge(&prev));
    assert_eq!(a.highest_seen(), ballot(3, 1));
    prev = a.highest_seen();
    a.handle_prepare(ballot(1, 0));
    assert!(a.highest_seen().ge(&prev));
    prev = a.highest_seen();
    a.handle_accept(ballot(3, 1), 0, 7);
    assert!(a.highest_seen().ge(&prev));
    assert_eq!(a.highest_seen(), ballot(3, 1));
}

#[test]
fn equal_ballot_overwrites_slot() {
    let mut a = AcceptorReplica::new(0);
    a.handle_accept(ballot(2, 0), 3, 10);
    let r = a.handle_accept(ballot(2, 0), 3, 11);
    assert!(matches!(r, AcceptReply::Accepted { .. }));
    assert_eq!(a.accepted(3).unwrap().value, 11);
}

#[test]
fn promise_reports_accepted_entries_in_slot_order() {
    let mut a = AcceptorReplica::new(0);
    a.handle_accept(ballot(1, 0), 2, 20);
    a.handle_accept(ballot(2, 0), 0, 5);
    match a.handle_prepare(ballot(3, 1)) {
        PrepareReply::Promise { accepted, .. } => {
            assert_eq!(accepted.len(), 2);
            assert_eq!(accepted[0].slot, 0);
            assert_eq!(accepted[0].value, 5);
            assert_eq!(accepted[0].ballot, ballot(2, 0));
            assert_eq!(accepted[1].slot, 2);
            assert_eq!(accepted[1].value, 20);
            assert_eq!(accepted[1].ballot, ballot(1, 0));
        },
        PrepareReply::Reject { .. } => panic!("prepare above highest must promise"),
    }
}
