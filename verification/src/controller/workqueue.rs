//! A queue of keys to work on. A key waits at most once, and is worked on by
//! at most one worker; one that is added while it is worked on waits again
//! afterwards.

use vstd::prelude::*;

use crate::names::NameMap;
use crate::reconciler;
use crate::reconciler::{compute_backoff, BackoffPolicy};
use crate::text;

verus! {

/// Keys that wait, keys that are worked on, and which of the latter were added
/// again.
#[derive(Debug, Clone, PartialEq)]
pub struct WorkQueue {
    pub waiting: Vec<String>,
    pub running: Vec<String>,
    pub again: Vec<String>,
}

/// What a `WorkQueue` holds.
#[verifier::ext_equal]
pub struct QueueView {
    pub waiting: Seq<Seq<char>>,
    pub running: Seq<Seq<char>>,
    pub again: Seq<Seq<char>>,
}

impl DeepView for WorkQueue {
    type V = QueueView;

    open spec fn deep_view(&self) -> QueueView {
        QueueView {
            waiting: self.waiting.deep_view(),
            running: self.running.deep_view(),
            again: self.again.deep_view(),
        }
    }
}

impl QueueView {
    pub open spec fn wf(self) -> bool {
        &&& self.waiting.no_duplicates()
        &&& self.running.no_duplicates()
        &&& self.again.no_duplicates()
        &&& forall|k: Seq<char>| #[trigger]
            self.waiting.contains(k) ==> !self.running.contains(k)
        &&& forall|k: Seq<char>| #[trigger] self.again.contains(k) ==> self.running.contains(k)
    }

    /// A queue after a key was added.
    pub open spec fn added(self, key: Seq<char>) -> QueueView {
        if self.running.contains(key) {
            if self.again.contains(key) {
                self
            } else {
                QueueView { again: self.again.push(key), ..self }
            }
        } else if self.waiting.contains(key) {
            self
        } else {
            QueueView { waiting: self.waiting.push(key), ..self }
        }
    }

    /// A queue after work on a key has ended.
    pub open spec fn ended(self, key: Seq<char>) -> QueueView {
        if self.running.contains(key) {
            QueueView {
                running: self.running.remove(self.running.index_of(key)),
                again: if self.again.contains(key) {
                    self.again.remove(self.again.index_of(key))
                } else {
                    self.again
                },
                waiting: if self.again.contains(key) {
                    self.waiting.push(key)
                } else {
                    self.waiting
                },
            }
        } else {
            self
        }
    }
}

fn position(keys: &Vec<String>, key: &str) -> (at: Option<usize>)
    requires
        keys.deep_view().no_duplicates(),
    ensures
        match at {
            Some(i) => i < keys@.len() && keys.deep_view().contains(key@) && i
                == keys.deep_view().index_of(key@),
            None => !keys.deep_view().contains(key@),
        },
{
    let ghost list = keys.deep_view();
    for i in 0..keys.len()
        invariant
            list == keys.deep_view(),
            list.no_duplicates(),
            forall|k: int| 0 <= k < i ==> #[trigger] list[k] != key@,
    {
        assert(list[i as int] == keys@[i as int]@);
        if text::same(keys[i].as_str(), key) {
            proof {
                assert(list.contains(key@));
                let j = list.index_of(key@);
                assert(list[j] == list[i as int]);
            }
            return Some(i);
        }
    }
    None
}

proof fn pushed(s: Seq<Seq<char>>, key: Seq<char>)
    requires
        s.no_duplicates(),
        !s.contains(key),
    ensures
        s.push(key).no_duplicates(),
        forall|k: Seq<char>| #[trigger] s.push(key).contains(k) <==> s.contains(k) || k == key,
{
    assert forall|k: Seq<char>| #[trigger] s.push(key).contains(k) <==> s.contains(k) || k
        == key by {
        if s.contains(k) {
            let i = choose|i: int| 0 <= i < s.len() && s[i] == k;
            assert(s.push(key)[i] == k);
        }
        if k == key {
            assert(s.push(key)[s.len() as int] == k);
        }
    }
}

proof fn dropped(s: Seq<Seq<char>>, i: int)
    requires
        s.no_duplicates(),
        0 <= i < s.len(),
    ensures
        s.remove(i).no_duplicates(),
        forall|k: Seq<char>| #[trigger] s.remove(i).contains(k) <==> s.contains(k) && k != s[i],
{
    let t = s.remove(i);
    assert forall|a: int, b: int| 0 <= a < t.len() && 0 <= b < t.len() && a != b implies #[trigger]
        t[a] != #[trigger] t[b] by {
        let x = if a < i { a } else { a + 1 };
        let y = if b < i { b } else { b + 1 };
        assert(s[x] == t[a] && s[y] == t[b]);
    }
    assert forall|k: Seq<char>| #[trigger] t.contains(k) <==> s.contains(k) && k != s[i] by {
        if t.contains(k) {
            let a = choose|a: int| 0 <= a < t.len() && t[a] == k;
            let x = if a < i { a } else { a + 1 };
            assert(s[x] == k);
        }
        if s.contains(k) && k != s[i] {
            let a = choose|a: int| 0 <= a < s.len() && s[a] == k;
            let x = if a < i { a } else { a - 1 };
            assert(t[x] == k);
        }
    }
}

impl WorkQueue {
    pub fn new() -> (q: Self)
        ensures
            q.deep_view().wf(),
            q.deep_view() == (QueueView {
                waiting: Seq::empty(),
                running: Seq::empty(),
                again: Seq::empty(),
            }),
    {
        let q = WorkQueue { waiting: Vec::new(), running: Vec::new(), again: Vec::new() };
        assert(q.waiting.deep_view() =~= Seq::<Seq<char>>::empty());
        assert(q.running.deep_view() =~= Seq::<Seq<char>>::empty());
        assert(q.again.deep_view() =~= Seq::<Seq<char>>::empty());
        q
    }

    /// Adds a key.
    pub fn add(&mut self, key: String)
        requires
            old(self).deep_view().wf(),
        ensures
            final(self).deep_view().wf(),
            final(self).deep_view() == old(self).deep_view().added(key@),
    {
        let ghost before = self.deep_view();
        let ghost k = key@;
        if position(&self.running, key.as_str()).is_some() {
            if position(&self.again, key.as_str()).is_none() {
                proof {
                    pushed(before.again, k);
                }
                self.again.push(key);
                assert(self.again.deep_view() =~= before.again.push(k));
            }
        } else if position(&self.waiting, key.as_str()).is_none() {
            proof {
                pushed(before.waiting, k);
            }
            self.waiting.push(key);
            assert(self.waiting.deep_view() =~= before.waiting.push(k));
        }
    }

    /// Takes the key that waits longest, to be worked on.
    pub fn get(&mut self) -> (key: Option<String>)
        requires
            old(self).deep_view().wf(),
        ensures
            final(self).deep_view().wf(),
            match key {
                Some(key) => {
                    &&& old(self).deep_view().waiting.len() > 0
                    &&& key@ == old(self).deep_view().waiting[0]
                    &&& final(self).deep_view() == (QueueView {
                        waiting: old(self).deep_view().waiting.remove(0),
                        running: old(self).deep_view().running.push(key@),
                        ..old(self).deep_view()
                    })
                },
                None => old(self).deep_view().waiting.len() == 0 && final(self).deep_view()
                    == old(self).deep_view(),
            },
    {
        let ghost before = self.deep_view();
        if self.waiting.len() == 0 {
            return None;
        }
        assert(before.waiting[0] == self.waiting@[0]@);
        assert(before.waiting.contains(before.waiting[0]));
        proof {
            dropped(before.waiting, 0);
            pushed(before.running, before.waiting[0]);
        }
        let key = self.waiting.remove(0);
        assert(self.waiting.deep_view() =~= before.waiting.remove(0));
        self.running.push(key.clone());
        assert(self.running.deep_view() =~= before.running.push(key@));
        Some(key)
    }

    /// Ends the work on a key.
    pub fn done(&mut self, key: &str)
        requires
            old(self).deep_view().wf(),
        ensures
            final(self).deep_view().wf(),
            final(self).deep_view() == old(self).deep_view().ended(key@),
    {
        let ghost before = self.deep_view();
        if let Some(i) = position(&self.running, key) {
            proof {
                dropped(before.running, i as int);
            }
            self.running.remove(i);
            assert(self.running.deep_view() =~= before.running.remove(i as int));
            if let Some(j) = position(&self.again, key) {
                proof {
                    dropped(before.again, j as int);
                    assert(!before.waiting.contains(key@));
                    pushed(before.waiting, key@);
                }
                self.again.remove(j);
                assert(self.again.deep_view() =~= before.again.remove(j as int));
                self.waiting.push(key.to_owned());
                assert(self.waiting.deep_view() =~= before.waiting.push(key@));
            }
        }
    }
}

/// Law: no addition is lost, and no key is worked on by two workers. A key that
/// was added waits, or will wait when the work on it ends; one that waits is
/// not worked on.
pub proof fn additions_are_not_lost(q: QueueView, key: Seq<char>)
    requires
        q.wf(),
    ensures
        q.added(key).waiting.contains(key) || q.added(key).ended(key).waiting.contains(key),
        q.added(key).waiting.contains(key) ==> !q.added(key).running.contains(key),
        q.added(key).added(key) == q.added(key),
{
    if q.running.contains(key) {
        if !q.again.contains(key) {
            pushed(q.again, key);
        }
        let now = q.added(key);
        assert(now.again.contains(key));
        assert(now.waiting.push(key)[now.waiting.len() as int] == key);
        assert(now.ended(key).waiting.contains(key));
        assert(!q.waiting.contains(key));
    } else if !q.waiting.contains(key) {
        pushed(q.waiting, key);
    }
}

/// How often a key has failed in a row once it fails again; no more is counted
/// than can be.
pub open spec fn failures_after(failures: Map<Seq<char>, u32>, key: Seq<char>) -> u32 {
    if !failures.contains_key(key) {
        1
    } else if failures[key] == u32::MAX {
        u32::MAX
    } else {
        (failures[key] + 1) as u32
    }
}

/// How often work on each key has failed since it last succeeded.
#[derive(Debug)]
pub struct RateLimiter {
    pub failures: NameMap<u32>,
}

impl RateLimiter {
    pub fn new() -> (rl: Self)
        ensures
            rl.failures@ == Map::<Seq<char>, u32>::empty(),
    {
        RateLimiter { failures: NameMap::new() }
    }

    /// Counts a failure; says how many there are in a row.
    pub fn failure(&mut self, key: &str) -> (count: u32)
        ensures
            count == failures_after(old(self).failures@, key@),
            final(self).failures@ == old(self).failures@.insert(key@, count),
    {
        let count: u32 = match self.failures.get(key) {
            Some(n) => (*n).saturating_add(1),
            None => 1,
        };
        self.failures.insert(key.to_owned(), count);
        count
    }

    /// Forgets the failures of a key.
    pub fn forget(&mut self, key: &str)
        ensures
            final(self).failures@ == old(self).failures@.remove(key@),
    {
        self.failures.remove(key);
    }
}

/// How long to wait before a key is tried again after so many failures, in
/// milliseconds: five that double, up to a quarter of an hour.
pub open spec fn retry_delay(attempt: u32) -> u64 {
    reconciler::backoff_after(BackoffPolicy { base_millis: 5, max_millis: 900_000 }, attempt)
}

pub fn backoff_for(attempt: u32) -> (millis: u64)
    ensures
        millis == retry_delay(attempt),
{
    compute_backoff(BackoffPolicy { base_millis: 5, max_millis: 900_000 }, attempt)
}

/// Ends the work on a key. After a success its failures are forgotten; after a
/// failure, the result is how long to wait, in milliseconds, before the key is
/// added again.
pub fn settle(queue: &mut WorkQueue, limiter: &mut RateLimiter, key: &str, failed: bool) -> (delay:
    Option<u64>)
    requires
        old(queue).deep_view().wf(),
    ensures
        final(queue).deep_view().wf(),
        final(queue).deep_view() == old(queue).deep_view().ended(key@),
        match delay {
            None => !failed && final(limiter).failures@ == old(limiter).failures@.remove(key@),
            Some(millis) => failed && final(limiter).failures@ == old(limiter).failures@.insert(
                key@,
                failures_after(old(limiter).failures@, key@),
            ) && millis == retry_delay(failures_after(old(limiter).failures@, key@)),
        },
{
    if failed {
        let attempt: u32 = limiter.failure(key);
        queue.done(key);
        Some(backoff_for(attempt))
    } else {
        limiter.forget(key);
        queue.done(key);
        None
    }
}

/// Law: keys are worked on in the order in which they came to wait. A key that is
/// added goes behind all that wait; one that is taken is the first; none overtakes.
pub proof fn keys_wait_in_line(q: QueueView, key: Seq<char>)
    requires
        q.wf(),
    ensures
        !q.running.contains(key) && !q.waiting.contains(key) ==> q.added(key).waiting
            == q.waiting.push(key) && q.added(key).running == q.running,
        q.running.contains(key) || q.waiting.contains(key) ==> q.added(key).waiting == q.waiting
            && q.added(key).running == q.running,
        q.running.contains(key) ==> q.added(key).again.contains(key),
        !q.running.contains(key) ==> q.ended(key) == q,
        q.running.contains(key) ==> {
            &&& !q.ended(key).running.contains(key)
            &&& !q.ended(key).again.contains(key)
            &&& q.ended(key).waiting == if q.again.contains(key) {
                q.waiting.push(key)
            } else {
                q.waiting
            }
            &&& forall|k: Seq<char>|
                k != key ==> (#[trigger] q.ended(key).running.contains(k) <==> q.running.contains(
                    k,
                ))
            &&& forall|k: Seq<char>|
                k != key ==> (#[trigger] q.ended(key).again.contains(k) <==> q.again.contains(k))
        },
{
    if q.running.contains(key) {
        dropped(q.running, q.running.index_of(key));
        if q.again.contains(key) {
            dropped(q.again, q.again.index_of(key));
        } else {
            pushed(q.again, key);
            assert(q.added(key).again.contains(key));
        }
    }
}

/// Law: a failure is counted, once, on top of those in a row before it.
pub proof fn failures_are_counted(failures: Map<Seq<char>, u32>, key: Seq<char>)
    ensures
        failures_after(failures, key) == vstd::math::min(
            1 + if failures.contains_key(key) {
                failures[key] as int
            } else {
                0
            },
            u32::MAX as int,
        ),
{
}

/// Law: after the k-th failure in a row the wait is five milliseconds, doubled with
/// each failure after the first, twenty times at most, and a quarter of an hour at most.
pub proof fn retries_wait_twice_as_long(attempt: u32, millis: u64)
    requires
        call_ensures(backoff_for, (attempt,), millis),
    ensures
        attempt >= 1 ==> millis == vstd::math::min(
            5int * vstd::arithmetic::power2::pow2(vstd::math::min(attempt - 1, 20) as nat),
            900_000,
        ),
        attempt == 0 ==> millis == 5,
{
    vstd::arithmetic::power2::lemma2_to64();
}


/// Law: a key that is added waits at the end of the line, once, or, while it is
/// worked on, is kept for later. What waits is handed out from the front, and
/// goes to work. When the work on a key ends, it waits again if it was added
/// meanwhile.
pub proof fn queues_hand_out_in_order(
    adding: &mut WorkQueue,
    key: String,
    taking: &mut WorkQueue,
    taken: Option<String>,
    ending: &mut WorkQueue,
    ended: &str,
    other: Seq<char>,
)
    requires
        old(adding).deep_view().wf(),
        old(taking).deep_view().wf(),
        old(ending).deep_view().wf(),
        call_ensures(WorkQueue::add, (adding, key), ()),
        call_ensures(WorkQueue::get, (taking,), taken),
        call_ensures(WorkQueue::done, (ending, ended), ()),
    ensures
        ({
            let was = old(adding).deep_view();
            let now = final(adding).deep_view();
            &&& now.running == was.running
            &&& was.running.contains(key@) ==> now.waiting == was.waiting && now.again.contains(
                key@,
            )
            &&& !was.running.contains(key@) ==> now.again == was.again && now.waiting == (
            if was.waiting.contains(key@) {
                was.waiting
            } else {
                was.waiting.push(key@)
            })
        }),
        ({
            let was = old(taking).deep_view();
            let now = final(taking).deep_view();
            &&& taken is Some <==> was.waiting.len() > 0
            &&& taken is None ==> now == was
            &&& taken is Some ==> {
                &&& taken->0@ == was.waiting[0]
                &&& now.waiting == was.waiting.skip(1)
                &&& now.running == was.running.push(taken->0@)
                &&& now.again == was.again
            }
        }),
        ({
            let was = old(ending).deep_view();
            let now = final(ending).deep_view();
            &&& !was.running.contains(ended@) ==> now == was
            &&& was.running.contains(ended@) ==> {
                &&& !now.running.contains(ended@)
                &&& !now.again.contains(ended@)
                &&& now.waiting == (if was.again.contains(ended@) {
                    was.waiting.push(ended@)
                } else {
                    was.waiting
                })
            }
            &&& other != ended@ ==> now.running.contains(other) == was.running.contains(other)
                && now.again.contains(other) == was.again.contains(other)
        }),
{
    let was = old(adding).deep_view();
    if was.running.contains(key@) && !was.again.contains(key@) {
        pushed(was.again, key@);
        assert(was.again.push(key@)[was.again.len() as int] == key@);
    }
    let line = old(taking).deep_view().waiting;
    if line.len() > 0 {
        assert(line.remove(0) =~= line.skip(1));
    }
    let q = old(ending).deep_view();
    keys_wait_in_line(q, ended@);
    assert(q.ended(ended@).running.contains(other) || !q.ended(ended@).running.contains(other));
    assert(q.ended(ended@).again.contains(other) || !q.ended(ended@).again.contains(other));
}

/// Law: work that failed is tried again after a wait that its failures in a row
/// give; work that succeeded is not, and its failures are forgotten. Either way
/// the key is no longer worked on, and the failures of no other key change.
pub proof fn failed_work_is_tried_again(
    queue: &mut WorkQueue,
    limiter: &mut RateLimiter,
    key: &str,
    failed: bool,
    delay: Option<u64>,
    other: Seq<char>,
)
    requires
        old(queue).deep_view().wf(),
        call_ensures(settle, (queue, limiter, key, failed), delay),
    ensures
        delay is Some <==> failed,
        ({
            let was = old(limiter).failures@;
            let now = final(limiter).failures@;
            let had = if was.contains_key(key@) {
                was[key@] as int
            } else {
                0
            };
            &&& !failed ==> !now.contains_key(key@)
            &&& failed ==> {
                &&& now.contains_key(key@)
                &&& now[key@] == vstd::math::min(had + 1, u32::MAX as int)
                &&& delay->0 == vstd::math::min(
                    5int * vstd::arithmetic::power2::pow2(
                        vstd::math::min(now[key@] - 1, 20) as nat,
                    ),
                    900_000,
                )
            }
            &&& other != key@ ==> now.contains_key(other) == was.contains_key(other) && (
            was.contains_key(other) ==> now[other] == was[other])
        }),
        !final(queue).deep_view().running.contains(key@),
{
    keys_wait_in_line(old(queue).deep_view(), key@);
    vstd::arithmetic::power2::lemma2_to64();
}

} // verus!
