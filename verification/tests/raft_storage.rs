//! What a Raft node keeps on disk.

use my_k8s::raft::log::{LogEntry, LogIndex, RaftLog, Term};
use my_k8s::raft::storage::{log_key, HardState, RaftStorage};

/// What is left of a storage when its process ends.
fn reopen(before: RaftStorage) -> RaftStorage {
    let mut storage = RaftStorage::open();
    storage.save_hard_state(&before.load_hard_state());
    storage.append_entries(&before.load_log());
    storage
}

fn entry(index: LogIndex, term: Term) -> LogEntry {
    LogEntry {
        term,
        index,
        command: format!("cmd-{index}").into_bytes(),
    }
}

#[test]
fn first_boot_yields_default_hard_state() {
    let s = RaftStorage::open();
    let hs = s.load_hard_state();
    assert_eq!(hs, HardState::default()); // term 0, no vote
}

#[test]
fn hard_state_roundtrips_and_overwrites() {
    let mut s = RaftStorage::open();
    s.save_hard_state(&HardState {
        current_term: 1,
        voted_for: Some(2),
    });
    assert_eq!(s.load_hard_state().voted_for, Some(2));

    // Later term overwrites in place (single key).
    s.save_hard_state(&HardState {
        current_term: 5,
        voted_for: None,
    });
    let hs = s.load_hard_state();
    assert_eq!(hs.current_term, 5);
    assert_eq!(hs.voted_for, None);
}

/// The vote-twice guard: a "restart" (reopen over the same tree) must
/// still know the vote.
#[test]
fn hard_state_survives_restart() {
    let mut s = RaftStorage::open();
    s.save_hard_state(&HardState {
        current_term: 3,
        voted_for: Some(1),
    });

    let reopened = reopen(s);
    let hs = reopened.load_hard_state();
    assert_eq!(hs.current_term, 3);
    assert_eq!(hs.voted_for, Some(1), "must remember the vote after restart");
}

/// 25 entries: with unpadded keys "log/10" would sort before "log/2" and
/// load_log would come back misordered. Padding makes byte order = numeric.
#[test]
fn load_log_returns_entries_in_index_order_past_ten() {
    let mut s = RaftStorage::open();
    let entries: Vec<LogEntry> = (1..=25).map(|i| entry(i, 1)).collect();
    s.append_entries(&entries);

    let loaded = s.load_log();
    let indices: Vec<LogIndex> = loaded.iter().map(|e| e.index).collect();
    assert_eq!(indices, (1..=25).collect::<Vec<_>>());
}

#[test]
fn truncate_from_kills_the_zombie_suffix() {
    let mut s = RaftStorage::open();
    s.append_entries(&vec![entry(1, 1), entry(2, 1), entry(3, 2), entry(4, 2)]);

    // Conflict at 3: truncate 3+, then the new leader's SINGLE entry 3.
    s.truncate_from(3);
    s.append_entries(&vec![entry(3, 3)]);

    let loaded = s.load_log();
    let view: Vec<(LogIndex, Term)> = loaded.iter().map(|e| (e.index, e.term)).collect();
    // Old entry 4 must NOT resurrect - that's the zombie the truncate kills.
    assert_eq!(view, vec![(1, 1), (2, 1), (3, 3)]);
}

#[test]
fn truncate_from_zero_clears_log_but_not_hard_state() {
    let mut s = RaftStorage::open();
    s.save_hard_state(&HardState {
        current_term: 2,
        voted_for: Some(3),
    });
    s.append_entries(&vec![entry(1, 1), entry(2, 1)]);

    s.truncate_from(0);
    assert!(s.load_log().is_empty());
    // hard_state lives under a different key - untouched by log truncation.
    assert_eq!(s.load_hard_state().current_term, 2);
}

/// Full restart simulation: log + hard state written, process "dies"
/// (drop), reopen, rebuild - the exact startup path the shell will run.
#[test]
fn full_state_survives_restart() {
    let mut s = RaftStorage::open();
    s.save_hard_state(&HardState {
        current_term: 4,
        voted_for: Some(2),
    });
    s.append_entries(&vec![entry(1, 1), entry(2, 4)]);

    let reopened = reopen(s);
    let log = RaftLog::from_entries(reopened.load_log());
    assert_eq!(log.last_index(), 2);
    assert_eq!(log.last_term(), 4);
    assert_eq!(reopened.load_hard_state().current_term, 4);
}

/// Keys of entries past the tenth sort behind those before it.
#[test]
fn log_keys_sort_like_numbers() {
    assert_eq!(log_key(7), b"log/00000000000000000007".to_vec());
    let keys: Vec<Vec<u8>> = [1u64, 2, 9, 10, 11, 99, 100, u64::MAX].iter().map(|i| log_key(*i)).collect();
    let mut sorted = keys.clone();
    sorted.sort();
    assert_eq!(keys, sorted);
}

#[test]
fn entries_replace_those_of_their_index() {
    let mut s = RaftStorage::open();
    s.append_entries(&vec![entry(2, 1), entry(1, 1)]);
    s.append_entries(&vec![entry(2, 5)]);
    let view: Vec<(LogIndex, Term)> = s.load_log().iter().map(|e| (e.index, e.term)).collect();
    assert_eq!(view, vec![(1, 1), (2, 5)]);
}
