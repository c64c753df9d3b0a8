use paxos_core::quorum::{quorum_size, QuorumTracker};

#[test]
fn quorum_sizes_small_clusters() {
    assert_eq!(quorum_size(1), 1);
    assert_eq!(quorum_size(2), 2);
    assert_eq!(quorum_size(3), 2);
    assert_eq!(quorum_size(4), 3);
    assert_eq!(quorum_size(5), 3);
}

#[test]
fn two_quorums_always_intersect() {
    // Quorum arithmetic: two quorums of an n-node cluster together exceed n,
    // so they must share a member.
    for n in 1..=5usize {
        let q = quorum_size(n);
        assert!(2 * q > n);
    }
}

#[test]
fn tracker_reaches_quorum_at_majority() {
    let mut t = QuorumTracker::new(3);
    assert!(!t.has_quorum());
    assert!(t.record(0));
    assert!(!t.has_quorum());
    assert!(t.record(2));
    assert!(t.has_quorum());
}

#[test]
fn tracker_ignores_duplicate_responses() {
    let mut t = QuorumTracker::new(5);
    assert!(t.record(1));
    assert!(!t.record(1));
    assert!(!t.record(1));
    // Three arrivals from one acceptor count once: no quorum out of 5.
    assert!(!t.has_quorum());
    assert!(t.record(0));
    assert!(!t.has_quorum());
    assert!(t.record(4));
    assert!(t.has_quorum());
}

#[test]
fn single_node_cluster_quorum_is_one() {
    let mut t = QuorumTracker::new(1);
    assert!(!t.has_quorum());
    assert!(t.record(0));
    assert!(t.has_quorum());
}
