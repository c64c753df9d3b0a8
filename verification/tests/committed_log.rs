use paxos_core::log::CommittedLog;

#[test]
fn empty_log_has_no_values() {
    let l = CommittedLog::new();
    assert_eq!(l.committed_value(0), None);
    assert_eq!(l.committed_value(7), None);
    assert!(l.entries().is_empty());
}

#[test]
fn committed_slot_is_never_altered() {
    // Agreement at the log: at most one value is ever present per slot, and
    // a second commit attempt for the same slot changes nothing.
    let mut l = CommittedLog::new();
    assert!(l.commit(3, 9));
    assert!(!l.commit(3, 10));
    assert_eq!(l.committed_value(3), Some(9));
    assert!(!l.commit(3, 9));
    assert_eq!(l.committed_value(3), Some(9));
}

#[test]
fn entries_come_in_slot_order() {
    let mut l = CommittedLog::new();
    l.commit(3, 9);
    l.commit(1, 5);
    l.commit(0, 2);
    assert_eq!(l.entries(), vec![(0, 2), (1, 5), (3, 9)]);
    assert_eq!(l.committed_value(2), None);
}
