//! What has to survive a crash: the current term, the vote and the log.
//! Everything else is safely volatile. This is the image of one node's
//! durable state; whoever writes it to disk keys each entry by `log_key`.

use vstd::prelude::*;

use crate::duplicate::Duplicate;
use crate::raft::log;
use crate::raft::log::{LogEntry, LogEntryView, LogIndex, NodeId, Term};
use crate::text;

verus! {

#[derive(Debug, Clone, Copy, PartialEq)]
pub struct HardState {
    pub current_term: Term,
    pub voted_for: Option<NodeId>,
}

impl Default for HardState {
    fn default() -> (state: Self)
        ensures
            state == (HardState { current_term: 0, voted_for: None }),
    {
        HardState { current_term: 0, voted_for: None }
    }
}

/// The durable state of a node.
#[verifier::ext_equal]
pub struct StorageView {
    pub hard_state: HardState,
    pub entries: Seq<LogEntryView>,
}

/// Entries in strictly ascending order of their indices.
pub open spec fn ascending(entries: Seq<LogEntryView>) -> bool {
    forall|i: int, j: int|
        0 <= i < j < entries.len() ==> (#[trigger] entries[i]).index < (#[trigger] entries[j]).index
}

/// One entry stored under its index, in place of any entry that was there.
pub open spec fn stored(entries: Seq<LogEntryView>, entry: LogEntryView) -> Seq<LogEntryView>
    decreases entries.len(),
{
    if entries.len() == 0 || entries.last().index < entry.index {
        entries.push(entry)
    } else if entries.last().index == entry.index {
        entries.drop_last().push(entry)
    } else {
        stored(entries.drop_last(), entry).push(entries.last())
    }
}

/// Several entries stored one after the other.
pub open spec fn stored_all(entries: Seq<LogEntryView>, more: Seq<LogEntryView>) -> Seq<
    LogEntryView,
>
    decreases more.len(),
{
    if more.len() == 0 {
        entries
    } else {
        stored(stored_all(entries, more.drop_last()), more.last())
    }
}

/// The entries below an index.
pub open spec fn below(entries: Seq<LogEntryView>, from: int) -> Seq<LogEntryView>
    decreases entries.len(),
{
    if entries.len() > 0 && entries.last().index >= from {
        below(entries.drop_last(), from)
    } else {
        entries
    }
}

/// The entries left by a truncation: a real entry never has index 0.
pub open spec fn cut(entries: Seq<LogEntryView>, from: LogIndex) -> Seq<LogEntryView> {
    below(
        entries,
        if from == 0 {
            1
        } else {
            from as int
        },
    )
}

/// Storing keeps the order, the new entry is found under its index, and the
/// others stay as they were.
pub proof fn stored_keeps_order(entries: Seq<LogEntryView>, entry: LogEntryView)
    requires
        ascending(entries),
    ensures
        ascending(stored(entries, entry)),
        stored(entries, entry).contains(entry),
        forall|e: LogEntryView|
            #![trigger stored(entries, entry).contains(e)]
            e.index != entry.index ==> stored(entries, entry).contains(e) == entries.contains(e),
        forall|e: LogEntryView|
            stored(entries, entry).contains(e) && e.index == entry.index ==> e == entry,
    decreases entries.len(),
{
    let all = stored(entries, entry);
    if entries.len() == 0 || entries.last().index < entry.index {
        assert(all.last() == entry);
        assert forall|e: LogEntryView| e.index != entry.index implies all.contains(e)
            == entries.contains(e) by {
            if entries.contains(e) {
                let k = choose|k: int| 0 <= k < entries.len() && entries[k] == e;
                assert(all[k] == e);
            }
        }
    } else if entries.last().index == entry.index {
        assert(all.last() == entry);
        assert forall|e: LogEntryView| e.index != entry.index implies all.contains(e)
            == entries.contains(e) by {
            if entries.contains(e) {
                let k = choose|k: int| 0 <= k < entries.len() && entries[k] == e;
                assert(all[k] == e);
            }
            if all.contains(e) {
                let k = choose|k: int| 0 <= k < all.len() && all[k] == e;
                assert(entries[k] == e);
            }
        }
    } else {
        let front = entries.drop_last();
        let rest = stored(front, entry);
        stored_keeps_order(front, entry);
        assert forall|i: int, j: int| 0 <= i < j < all.len() implies (#[trigger] all[i]).index < (
        #[trigger] all[j]).index by {
            if j == all.len() - 1 {
                assert(rest.contains(rest[i]));
                if rest[i].index != entry.index {
                    assert(front.contains(rest[i]));
                    let k = choose|k: int| 0 <= k < front.len() && front[k] == rest[i];
                    assert(entries[k] == rest[i]);
                }
            }
        }
        assert(all.contains(entry)) by {
            let k = choose|k: int| 0 <= k < rest.len() && rest[k] == entry;
            assert(all[k] == entry);
        }
        assert forall|e: LogEntryView| e.index != entry.index implies all.contains(e)
            == entries.contains(e) by {
            if entries.contains(e) {
                let k = choose|k: int| 0 <= k < entries.len() && entries[k] == e;
                if k < front.len() {
                    assert(front[k] == e);
                    assert(rest.contains(e));
                    let m = choose|m: int| 0 <= m < rest.len() && rest[m] == e;
                    assert(all[m] == e);
                } else {
                    assert(all.last() == e);
                }
            }
            if all.contains(e) {
                let k = choose|k: int| 0 <= k < all.len() && all[k] == e;
                if k < rest.len() {
                    assert(rest[k] == e);
                    assert(rest.contains(e));
                    let m = choose|m: int| 0 <= m < front.len() && front[m] == e;
                    assert(entries[m] == e);
                } else {
                    assert(entries.last() == e);
                }
            }
        }
        assert forall|e: LogEntryView| all.contains(e) && e.index == entry.index implies e
            == entry by {
            let k = choose|k: int| 0 <= k < all.len() && all[k] == e;
            if k < rest.len() {
                assert(rest.contains(rest[k]));
            }
        }
    }
}

/// A truncation leaves exactly the entries below the index, in order.
pub proof fn below_is_exact(entries: Seq<LogEntryView>, from: int)
    requires
        ascending(entries),
    ensures
        ascending(below(entries, from)),
        forall|e: LogEntryView| #[trigger]
            below(entries, from).contains(e) <==> entries.contains(e) && e.index < from,
    decreases entries.len(),
{
    if entries.len() > 0 && entries.last().index >= from {
        let front = entries.drop_last();
        below_is_exact(front, from);
        assert forall|e: LogEntryView| #[trigger]
            below(entries, from).contains(e) <==> entries.contains(e) && e.index < from by {
            if entries.contains(e) && e.index < from {
                let k = choose|k: int| 0 <= k < entries.len() && entries[k] == e;
                assert(front[k] == e);
            }
            if front.contains(e) {
                let k = choose|k: int| 0 <= k < front.len() && front[k] == e;
                assert(entries[k] == e);
            }
        }
    } else {
        assert forall|e: LogEntryView| entries.contains(e) implies e.index < from by {
            let k = choose|k: int| 0 <= k < entries.len() && entries[k] == e;
            assert(entries[k].index <= entries.last().index);
        }
    }
}

/// The key of a log entry: zero-padded, so that byte order is numeric order.
pub open spec fn log_key_bytes(index: LogIndex) -> Seq<u8> {
    seq![108u8, 111u8, 103u8, 47u8] + text::padded_digits(index as nat, 20)
}

/// The key under which the entry at an index is kept: `log/` and twenty
/// digits.
pub fn log_key(index: LogIndex) -> (key: Vec<u8>)
    ensures
        key@ == log_key_bytes(index),
{
    let mut key: Vec<u8> = vec![108u8, 111u8, 103u8, 47u8];
    let mut digits = text::padded_decimal(index);
    key.append(&mut digits);
    assert(key@ =~= log_key_bytes(index));
    key
}

/// Law: log keys sort as bytes the way their indices sort as numbers.
pub proof fn log_keys_sort_by_index(a: LogIndex, b: LogIndex)
    requires
        a < b,
    ensures
        text::bytes_before(log_key_bytes(a), log_key_bytes(b)),
        log_key_bytes(a) != log_key_bytes(b),
{
    let p = text::padded_digits(a as nat, 20);
    let q = text::padded_digits(b as nat, 20);
    assert(vstd::arithmetic::power::pow(10, 20) == 100_000_000_000_000_000_000int) by {
        reveal_with_fuel(vstd::arithmetic::power::pow, 21);
    }
    text::padded_digits_keep_order(a as nat, b as nat, 20);
    text::padded_digits_len(a as nat, 20);
    text::padded_digits_len(b as nat, 20);
    let k = choose|k: int| text::first_smaller_at(p, q, k);
    let x = log_key_bytes(a);
    let y = log_key_bytes(b);
    assert(x.take(k + 4) =~= seq![108u8, 111u8, 103u8, 47u8] + p.take(k));
    assert(y.take(k + 4) =~= seq![108u8, 111u8, 103u8, 47u8] + q.take(k));
    assert(text::first_smaller_at(x, y, k + 4));
    text::smaller_at_first_difference(x, y, k + 4);
    text::bytes_before_is_total(x, y);
}

pub struct RaftStorage {
    hard_state: HardState,
    entries: Vec<LogEntry>,
}

impl View for RaftStorage {
    type V = StorageView;

    closed spec fn view(&self) -> StorageView {
        StorageView { hard_state: self.hard_state, entries: self.entries.deep_view() }
    }
}

impl RaftStorage {
    #[verifier::type_invariant]
    spec fn sorted(&self) -> bool {
        ascending(self.entries.deep_view())
    }

    /// The state of a node that has never run.
    pub fn open() -> (storage: Self)
        ensures
            storage@ == (StorageView {
                hard_state: HardState { current_term: 0, voted_for: None },
                entries: Seq::empty(),
            }),
    {
        let entries: Vec<LogEntry> = Vec::new();
        assert(entries.deep_view() =~= Seq::<LogEntryView>::empty());
        RaftStorage { hard_state: HardState::default(), entries }
    }

    pub fn load_hard_state(&self) -> (state: HardState)
        ensures
            state == self@.hard_state,
    {
        self.hard_state
    }

    pub fn save_hard_state(&mut self, state: &HardState)
        ensures
            final(self)@ == (StorageView { hard_state: *state, ..old(self)@ }),
    {
        proof {
            use_type_invariant(&*self);
        }
        self.hard_state = *state;
    }

    pub fn append_entries(&mut self, entries: &Vec<LogEntry>)
        ensures
            final(self)@ == (StorageView {
                entries: stored_all(old(self)@.entries, entries.deep_view()),
                ..old(self)@
            }),
    {
        proof {
            use_type_invariant(&*self);
        }
        let ghost all = entries.deep_view();
        let ghost start = self@;
        let mut current: Vec<LogEntry> = Vec::new();
        std::mem::swap(&mut current, &mut self.entries);
        assert(all.take(0) =~= Seq::<LogEntryView>::empty());
        for i in 0..entries.len()
            invariant
                all == entries.deep_view(),
                current.deep_view() == stored_all(start.entries, all.take(i as int)),
                ascending(current.deep_view()),
        {
            proof {
                assert(all.take(i + 1).drop_last() =~= all.take(i as int));
                assert(all.take(i + 1).last() == entries@[i as int].deep_view());
                stored_keeps_order(current.deep_view(), entries@[i as int].deep_view());
            }
            store(&mut current, entries[i].duplicate());
        }
        assert(all.take(entries@.len() as int) =~= all);
        self.entries = current;
    }

    /// Removes every entry at `from` and beyond, so that no stale entry comes
    /// back after a restart.
    pub fn truncate_from(&mut self, from: LogIndex)
        ensures
            final(self)@ == (StorageView { entries: cut(old(self)@.entries, from), ..old(self)@ }),
    {
        proof {
            use_type_invariant(&*self);
        }
        let floor: u64 = if from == 0 {
            1
        } else {
            from
        };
        let ghost start = self@;
        let mut current: Vec<LogEntry> = Vec::new();
        std::mem::swap(&mut current, &mut self.entries);
        while current.len() > 0 && current[current.len() - 1].index >= floor
            invariant
                below(current.deep_view(), floor as int) == below(start.entries, floor as int),
            decreases current.len(),
        {
            let ghost before = current.deep_view();
            current.pop();
            assert(current.deep_view() =~= before.drop_last());
        }
        proof {
            below_is_exact(start.entries, floor as int);
        }
        self.entries = current;
    }

    /// The log in index order.
    pub fn load_log(&self) -> (entries: Vec<LogEntry>)
        ensures
            entries.deep_view() == self@.entries,
            ascending(entries.deep_view()),
    {
        proof {
            use_type_invariant(self);
        }
        self.entries.duplicate()
    }
}

/// Stores one entry at its place in a list that is in index order.
fn store(entries: &mut Vec<LogEntry>, entry: LogEntry)
    ensures
        final(entries).deep_view() == stored(old(entries).deep_view(), entry.deep_view()),
{
    let ghost start = entries.deep_view();
    let ghost added = entry.deep_view();
    let mut above: Vec<LogEntry> = Vec::new();
    assert(above.deep_view().reverse() =~= Seq::<LogEntryView>::empty());
    while entries.len() > 0 && entries[entries.len() - 1].index > entry.index
        invariant
            added == entry.deep_view(),
            stored(start, added) =~= stored(entries.deep_view(), added)
                + above.deep_view().reverse(),
        decreases entries.len(),
    {
        let ghost before = entries.deep_view();
        let ghost moved = above.deep_view();
        if let Some(last) = entries.pop() {
            assert(entries.deep_view() =~= before.drop_last());
            above.push(last);
            assert(above.deep_view() =~= moved.push(before.last()));
            assert(above.deep_view().reverse() =~= seq![before.last()] + moved.reverse());
        }
    }
    let ghost before = entries.deep_view();
    if entries.len() > 0 && entries[entries.len() - 1].index == entry.index {
        entries.pop();
        assert(entries.deep_view() =~= before.drop_last());
    }
    let ghost front = entries.deep_view();
    entries.push(entry);
    assert(entries.deep_view() =~= front.push(added));
    assert(entries.deep_view() == stored(before, added));
    while above.len() > 0
        invariant
            stored(start, added) =~= entries.deep_view() + above.deep_view().reverse(),
        decreases above.len(),
    {
        let ghost held = entries.deep_view();
        let ghost moved = above.deep_view();
        if let Some(last) = above.pop() {
            assert(above.deep_view() =~= moved.drop_last());
            entries.push(last);
            assert(entries.deep_view() =~= held.push(moved.last()));
            assert(moved.reverse() =~= seq![moved.last()] + above.deep_view().reverse());
        }
    }
    assert(above.deep_view().reverse() =~= Seq::<LogEntryView>::empty());
    assert(entries.deep_view() =~= stored(start, added));
}

/// Appending the next numbered entries to a numbered log stores them behind
/// it.
pub proof fn stored_all_appends(entries: Seq<LogEntryView>, more: Seq<LogEntryView>)
    requires
        log::numbered(entries),
        log::numbered(entries + more),
    ensures
        stored_all(entries, more) == entries + more,
    decreases more.len(),
{
    if more.len() == 0 {
        assert(entries + more =~= entries);
    } else {
        let front = more.drop_last();
        assert(entries + more =~= (entries + front).push(more.last()));
        assert forall|i: int| 0 <= i < (entries + front).len() implies (#[trigger] (entries
            + front)[i]).index == i + 1 by {
            assert((entries + more)[i] == (entries + front)[i]);
        }
        stored_all_appends(entries, front);
        assert((entries + more)[(entries + front).len() as int] == more.last());
    }
}

/// On a numbered log, truncating the storage drops what truncating the log
/// drops.
pub proof fn below_truncates(entries: Seq<LogEntryView>, from: int)
    requires
        log::numbered(entries),
        1 <= from,
    ensures
        below(entries, from) == log::truncated(entries, from),
    decreases entries.len(),
{
    if entries.len() > 0 && entries.last().index >= from {
        let front = entries.drop_last();
        assert(entries[entries.len() - 1].index == entries.len());
        below_truncates(front, from);
        assert(log::truncated(front, from) =~= log::truncated(entries, from));
    } else {
        if entries.len() > 0 {
            assert(entries[entries.len() - 1].index == entries.len());
        }
        assert(log::truncated(entries, from) =~= entries);
    }
}


/// Law: what is saved is loaded, and saving it touches no entry. A truncation
/// leaves exactly the entries below the number, of those that are there in order,
/// and does not touch the hard state.
pub proof fn storage_keeps_what_is_saved(
    saving: &mut RaftStorage,
    state: &HardState,
    cutting: &mut RaftStorage,
    from: LogIndex,
    e: LogEntryView,
)
    requires
        call_ensures(RaftStorage::save_hard_state, (saving, state), ()),
        call_ensures(RaftStorage::truncate_from, (cutting, from), ()),
        ascending(old(cutting)@.entries),
    ensures
        final(saving)@.hard_state == *state,
        final(saving)@.entries == old(saving)@.entries,
        final(cutting)@.hard_state == old(cutting)@.hard_state,
        final(cutting)@.entries.contains(e) <==> old(cutting)@.entries.contains(e) && e.index < (
        if from == 0 {
            1
        } else {
            from as int
        }),
{
    below_is_exact(
        old(cutting)@.entries,
        if from == 0 {
            1
        } else {
            from as int
        },
    );
    assert(final(cutting)@.entries.contains(e) || !final(cutting)@.entries.contains(e));
}

/// Law: entries that continue a log are stored behind it, and do not touch the
/// hard state.
pub proof fn storage_keeps_what_is_appended(
    storage: &mut RaftStorage,
    entries: &Vec<LogEntry>,
    k: int,
)
    requires
        call_ensures(RaftStorage::append_entries, (storage, entries), ()),
        log::numbered(old(storage)@.entries),
        log::numbered(old(storage)@.entries + entries.deep_view()),
    ensures
        final(storage)@.hard_state == old(storage)@.hard_state,
        final(storage)@.entries.len() == old(storage)@.entries.len() + entries@.len(),
        0 <= k < old(storage)@.entries.len() ==> final(storage)@.entries[k] == old(
            storage,
        )@.entries[k],
        0 <= k < entries@.len() ==> final(storage)@.entries[old(storage)@.entries.len() + k]
            == entries@[k].deep_view(),
{
    stored_all_appends(old(storage)@.entries, entries.deep_view());
    assert(entries.deep_view().len() == entries@.len());
    if 0 <= k < entries@.len() {
        assert(entries.deep_view()[k] == entries@[k].deep_view());
    }
}

} // verus!
