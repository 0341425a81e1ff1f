//! The replicated log.

use my_k8s::raft::log::{LogEntry, RaftLog, Term};

/// Build a log with entries of the given terms.
fn log_with_terms(terms: &[Term]) -> RaftLog {
    let mut log = RaftLog::new();
    for t in terms {
        log.append(*t, vec![]);
    }
    log
}

#[test]
fn empty_log_sentinels() {
    let log = RaftLog::new();
    assert_eq!(log.last_index(), 0);
    assert_eq!(log.last_term(), 0);
    // The (0,0) sentinel: term_at(0) is Some(0) even on an empty log. This is
    // what lets the first consistency check pass.
    assert_eq!(log.term_at(0), Some(0));
    assert_eq!(log.term_at(1), None);
    assert!(log.get(0).is_none());
    assert!(log.entries_from(1).is_empty());
}

#[test]
fn append_assigns_one_based_contiguous_indices() {
    let mut log = RaftLog::new();
    assert_eq!(log.append(1, b"a".to_vec()), 1);
    assert_eq!(log.append(1, b"b".to_vec()), 2);
    assert_eq!(log.append(2, b"c".to_vec()), 3);

    assert_eq!(log.last_index(), 3);
    assert_eq!(log.last_term(), 2);
    // 1-based lookup returns the right entries.
    assert_eq!(log.get(1).unwrap().command, b"a");
    assert_eq!(log.get(3).unwrap().command, b"c");
    assert_eq!(log.term_at(2), Some(1));
    assert_eq!(log.term_at(3), Some(2));
    assert_eq!(log.term_at(4), None);
}

#[test]
fn entries_from_slices_inclusive_suffix() {
    let log = log_with_terms(&[1, 1, 2, 3]);
    // from=1: everything; from=3: last two; past the end or zero: empty.
    assert_eq!(log.entries_from(1).len(), 4);
    let tail = log.entries_from(3);
    assert_eq!(tail.len(), 2);
    assert_eq!(tail[0].index, 3);
    assert_eq!(tail[1].index, 4);
    assert!(log.entries_from(5).is_empty());
    assert!(log.entries_from(0).is_empty());
}

#[test]
fn truncate_from_drops_suffix_inclusive() {
    // Conflict resolution: drop the divergent suffix starting at `from`.
    let mut log = log_with_terms(&[1, 1, 2, 3]);
    log.truncate_from(3);
    assert_eq!(log.last_index(), 2);
    assert_eq!(log.last_term(), 1);
    assert_eq!(log.term_at(3), None);

    // from=0 clears everything; truncating past the end changes nothing.
    log.truncate_from(0);
    assert_eq!(log.last_index(), 0);
    let mut log = log_with_terms(&[1]);
    log.truncate_from(9);
    assert_eq!(log.last_index(), 1);
}

#[test]
fn append_entries_extends_and_roundtrips_from_entries() {
    let mut log = log_with_terms(&[1]);
    log.append_entries(vec![
        LogEntry {
            term: 2,
            index: 2,
            command: b"x".to_vec(),
        },
        LogEntry {
            term: 2,
            index: 3,
            command: b"y".to_vec(),
        },
    ]);
    assert_eq!(log.last_index(), 3);
    assert_eq!(log.last_term(), 2);

    // Restart path: rebuild from the same entries, with an identical view.
    let rebuilt = RaftLog::from_entries(log.entries_from(1));
    assert_eq!(rebuilt.last_index(), 3);
    assert_eq!(rebuilt.term_at(2), Some(2));
    assert_eq!(rebuilt.get(3).unwrap().command, b"y");
}
