//! The replicated log: the thing Raft exists to agree on. Each entry carries
//! the term it was created in; (index, term) pairs are how all of Raft's
//! consistency checks work.

use vstd::prelude::*;

use crate::duplicate::Duplicate;

verus! {

/// Logical clock: increments on every election. Term 0 = "before any leader".
pub type Term = u64;

/// 1-based. Index 0 = "the empty log": a real entry never has index 0.
pub type LogIndex = u64;

pub type NodeId = u64;

#[derive(Debug, Clone, PartialEq)]
pub struct LogEntry {
    pub term: Term,
    pub index: LogIndex,
    pub command: Vec<u8>,
}

/// What a `LogEntry` holds.
#[verifier::ext_equal]
pub struct LogEntryView {
    pub term: Term,
    pub index: LogIndex,
    pub command: Seq<u8>,
}

impl DeepView for LogEntry {
    type V = LogEntryView;

    open spec fn deep_view(&self) -> LogEntryView {
        LogEntryView { term: self.term, index: self.index, command: self.command.deep_view() }
    }
}

impl Duplicate for LogEntry {
    fn duplicate(&self) -> (copy: Self) {
        LogEntry { term: self.term, index: self.index, command: self.command.duplicate() }
    }
}

/// The term of the entry at a 1-based index. Index 0 has term 0, which makes
/// the check on the entry before the first one uniform.
pub open spec fn term_at(log: Seq<LogEntryView>, index: int) -> Option<Term> {
    if index == 0 {
        Some(0)
    } else if 1 <= index <= log.len() {
        Some(log[index - 1].term)
    } else {
        None
    }
}

/// The term of the last entry, 0 for the empty log.
pub open spec fn last_term(log: Seq<LogEntryView>) -> Term {
    if log.len() == 0 {
        0
    } else {
        log.last().term
    }
}

/// The log without the entries at `from` and after; everything goes for 0.
pub open spec fn truncated(log: Seq<LogEntryView>, from: int) -> Seq<LogEntryView> {
    if from <= 0 {
        Seq::empty()
    } else if from <= log.len() {
        log.take(from - 1)
    } else {
        log
    }
}

/// The entries at `from` and after.
pub open spec fn suffix(log: Seq<LogEntryView>, from: int) -> Seq<LogEntryView> {
    if 1 <= from <= log.len() {
        log.skip(from - 1)
    } else {
        Seq::empty()
    }
}

/// Every entry carries its own 1-based position.
pub open spec fn numbered(log: Seq<LogEntryView>) -> bool {
    forall|i: int| 0 <= i < log.len() ==> (#[trigger] log[i]).index == i + 1
}

#[derive(Debug, Clone)]
pub struct RaftLog {
    entries: Vec<LogEntry>,
}

impl View for RaftLog {
    type V = Seq<LogEntryView>;

    closed spec fn view(&self) -> Seq<LogEntryView> {
        self.entries.deep_view()
    }
}

impl Default for RaftLog {
    fn default() -> (log: Self)
        ensures
            log@ == Seq::<LogEntryView>::empty(),
    {
        RaftLog::new()
    }
}

impl RaftLog {
    pub fn new() -> (log: Self)
        ensures
            log@ == Seq::<LogEntryView>::empty(),
    {
        let log = RaftLog { entries: Vec::new() };
        assert(log@ =~= Seq::<LogEntryView>::empty());
        log
    }

    pub fn from_entries(entries: Vec<LogEntry>) -> (log: Self)
        ensures
            log@ == entries.deep_view(),
    {
        RaftLog { entries }
    }

    pub fn last_index(&self) -> (index: LogIndex)
        ensures
            index == self@.len(),
    {
        self.entries.len() as u64
    }

    pub fn last_term(&self) -> (term: Term)
        ensures
            term == last_term(self@),
    {
        if self.entries.len() == 0 {
            0
        } else {
            self.entries[self.entries.len() - 1].term
        }
    }

    /// Index 0 gives `Some(0)`: the empty-log sentinel makes the
    /// `prev_log_index` check of AppendEntries uniform.
    pub fn term_at(&self, index: LogIndex) -> (term: Option<Term>)
        ensures
            term == term_at(self@, index as int),
    {
        if index == 0 {
            return Some(0);
        }
        if index <= self.entries.len() as u64 {
            Some(self.entries[(index - 1) as usize].term)
        } else {
            None
        }
    }

    pub fn get(&self, index: LogIndex) -> (entry: Option<&LogEntry>)
        ensures
            match entry {
                Some(e) => 1 <= index <= self@.len() && e.deep_view() == self@[index - 1],
                None => index == 0 || index > self@.len(),
            },
    {
        if index == 0 || index > self.entries.len() as u64 {
            return None;
        }
        Some(&self.entries[(index - 1) as usize])
    }

    pub fn entries_from(&self, from: LogIndex) -> (tail: Vec<LogEntry>)
        ensures
            tail.deep_view() == suffix(self@, from as int),
    {
        let mut tail: Vec<LogEntry> = Vec::new();
        if from == 0 || from > self.last_index() {
            assert(tail.deep_view() =~= Seq::<LogEntryView>::empty());
            return tail;
        }
        let start: usize = (from - 1) as usize;
        for i in start..self.entries.len()
            invariant
                start == from - 1,
                start <= self.entries.len(),
                tail@.len() == i - start,
                forall|k: int|
                    0 <= k < tail@.len() ==> (#[trigger] tail@[k]).deep_view() == self@[start + k],
        {
            tail.push(self.entries[i].duplicate());
        }
        assert(tail.deep_view() =~= suffix(self@, from as int));
        tail
    }

    pub fn append(&mut self, term: Term, command: Vec<u8>) -> (index: LogIndex)
        requires
            old(self)@.len() < u64::MAX,
        ensures
            index == old(self)@.len() + 1,
            final(self)@ == old(self)@.push(
                (LogEntryView { term, index, command: command@ }),
            ),
    {
        let index: u64 = self.last_index() + 1;
        self.entries.push(LogEntry { term, index, command });
        assert(command.deep_view() =~= command@);
        assert(self@ =~= old(self)@.push(LogEntryView { term, index, command: command@ }));
        index
    }

    pub fn truncate_from(&mut self, from: LogIndex)
        ensures
            final(self)@ == truncated(old(self)@, from as int),
    {
        if from == 0 {
            self.entries.clear();
        } else if from <= self.entries.len() as u64 {
            self.entries.truncate((from - 1) as usize);
        }
        assert(self@ =~= truncated(old(self)@, from as int));
    }

    pub fn append_entries(&mut self, entries: Vec<LogEntry>)
        ensures
            final(self)@ == old(self)@ + entries.deep_view(),
    {
        let mut entries = entries;
        let ghost added = entries.deep_view();
        self.entries.append(&mut entries);
        assert(self@ =~= old(self)@ + added);
    }
}

/// Law: truncating at an index and appending the dropped suffix restores the
/// log.
pub proof fn truncate_then_append_restores(log: Seq<LogEntryView>, from: int)
    requires
        1 <= from,
    ensures
        truncated(log, from) + suffix(log, from) == log,
{
    assert(truncated(log, from) + suffix(log, from) =~= log);
}

/// Law: a log rebuilt from all its entries is the same log.
pub proof fn rebuild_from_all_entries_restores(log: Seq<LogEntryView>)
    ensures
        suffix(log, 1) == log,
{
    assert(suffix(log, 1) =~= log);
}

/// Law: appending the next number keeps a log numbered, and so does truncating
/// it.
pub proof fn numbering_is_kept(log: Seq<LogEntryView>, entry: LogEntryView, from: int)
    requires
        numbered(log),
        entry.index == log.len() + 1,
    ensures
        numbered(log.push(entry)),
        numbered(truncated(log, from)),
{
}


/// Law: the entry at a number, its term, the last term and the entries from a
/// number on are read off the log as they stand in it.
pub proof fn logs_are_read_as_they_stand(
    log: &RaftLog,
    index: LogIndex,
    term: Option<Term>,
    last: Term,
    tail: Vec<LogEntry>,
    k: int,
)
    requires
        call_ensures(RaftLog::term_at, (log, index), term),
        call_ensures(RaftLog::last_term, (log,), last),
        call_ensures(RaftLog::entries_from, (log, index), tail),
    ensures
        index == 0 ==> term == Some(0u64) && tail@.len() == 0,
        1 <= index <= log@.len() ==> term == Some(log@[index - 1].term) && tail@.len() == log@.len()
            - index + 1 && (0 <= k < tail@.len() ==> tail@[k].deep_view() == log@[index - 1 + k]),
        index > log@.len() && index > 0 ==> term is None && tail@.len() == 0,
        log@.len() == 0 ==> last == 0,
        log@.len() > 0 ==> last == log@[log@.len() - 1].term,
{
    let seen = tail.deep_view();
    assert(seen == suffix(log@, index as int));
    assert(seen.len() == tail@.len());
    if 0 <= k < tail@.len() {
        assert(seen[k] == tail@[k].deep_view());
    }
}

/// Law: cutting a log at a number keeps what stands before it and nothing else;
/// what is appended stands behind all that was there.
pub proof fn logs_are_cut_and_continued(
    cutting: &mut RaftLog,
    from: LogIndex,
    adding: &mut RaftLog,
    entries: Vec<LogEntry>,
    k: int,
)
    requires
        call_ensures(RaftLog::truncate_from, (cutting, from), ()),
        call_ensures(RaftLog::append_entries, (adding, entries), ()),
    ensures
        ({
            let (was, now) = (old(cutting)@, final(cutting)@);
            &&& now.len() == (if from == 0 {
                0
            } else if from <= was.len() {
                from - 1
            } else {
                was.len() as int
            })
            &&& 0 <= k < now.len() ==> now[k] == was[k]
        }),
        ({
            let (was, now) = (old(adding)@, final(adding)@);
            &&& now.len() == was.len() + entries@.len()
            &&& 0 <= k < was.len() ==> now[k] == was[k]
            &&& 0 <= k < entries@.len() ==> now[was.len() + k] == entries@[k].deep_view()
        }),
{
    let more = entries.deep_view();
    assert(more.len() == entries@.len());
    if 0 <= k < entries@.len() {
        assert(more[k] == entries@[k].deep_view());
    }
}

} // verus!
