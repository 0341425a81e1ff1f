//! Watches: a snapshot to catch up with, then every later write.

use vstd::prelude::*;

use crate::duplicate::Duplicate;
use crate::meta::{MetaView, ResourceMeta};
use crate::pod::{Pod, PodView};
use crate::text;

verus! {

#[derive(Debug, Clone, Copy, PartialEq, Eq, Structural)]
pub enum WatchEventType {
    Added,
    Modified,
    Deleted,
}

/// One watch frame.
#[derive(Debug, Clone, PartialEq)]
pub struct WatchEvent<T> {
    pub event_type: WatchEventType,
    pub object: T,
}

/// What a `WatchEvent` holds.
#[verifier::ext_equal]
pub struct WatchEventView<V> {
    pub event_type: WatchEventType,
    pub object: V,
}

impl<T: DeepView> DeepView for WatchEvent<T> {
    type V = WatchEventView<T::V>;

    open spec fn deep_view(&self) -> WatchEventView<T::V> {
        WatchEventView { event_type: self.event_type, object: self.object.deep_view() }
    }
}

/// Why a watch ends.
#[derive(Debug, Clone, Copy, PartialEq, Eq, Structural)]
pub enum WatchError {
    /// The watcher fell behind by more events than are kept for it. It has to
    /// list again.
    Lagged(u64),
}

impl WatchError {
    pub open spec fn message_chars(self) -> Seq<char> {
        match self {
            WatchError::Lagged(skipped) => "watcher lagged behind, skipped "@
                + text::decimal_chars(skipped as nat) + " events"@,
        }
    }

    pub fn message(&self) -> (s: String)
        ensures
            s@ == self.message_chars(),
    {
        match self {
            WatchError::Lagged(skipped) => {
                let mut s = "watcher lagged behind, skipped ".to_owned();
                text::push_decimal(&mut s, *skipped);
                s.append(" events");
                s
            },
        }
    }
}

/// The version of an object as a number; 0 where there is none to read.
pub open spec fn version(m: MetaView) -> u64 {
    match m.resource_version {
        Some(s) => match text::parsed_u64(s) {
            Some(rv) => rv,
            None => 0,
        },
        None => 0,
    }
}

/// The version of an object as a number; 0 where there is none to read.
pub fn object_rv<T: ResourceMeta>(object: &T) -> (rv: u64)
    ensures
        rv == version(T::meta_of(object.deep_view())),
{
    match &object.meta().resource_version {
        Some(s) => match text::parse_u64(s.as_str()) {
            Some(rv) => rv,
            None => 0,
        },
        None => 0,
    }
}

/// Whether an object is newer than where a watcher left off.
pub open spec fn newer<T: ResourceMeta>(v: T::V, from_rv: u64) -> bool {
    version(T::meta_of(v)) > from_rv
}

/// Which objects a watcher wants to see.
pub trait WatchFilter<T: DeepView> {
    spec fn passes(&self, v: T::V) -> bool;

    fn accepts(&self, object: &T) -> (r: bool)
        ensures
            r == self.passes(object.deep_view()),
    ;
}

/// The filter of a watcher that wants to see everything.
pub struct Everything;

impl<T: DeepView> WatchFilter<T> for Everything {
    open spec fn passes(&self, v: T::V) -> bool {
        true
    }

    fn accepts(&self, object: &T) -> (r: bool) {
        true
    }
}

/// The filter of a watcher that wants to see the Pods of one node, or all
/// Pods where no node is named.
pub struct NodeFilter {
    pub node: Option<String>,
}

/// Whether a Pod is bound to a node, if one is named.
pub open spec fn on_node(pod: PodView, node: Option<Seq<char>>) -> bool {
    match node {
        Some(name) => pod.spec.node_name == Some(name),
        None => true,
    }
}

impl WatchFilter<Pod> for NodeFilter {
    open spec fn passes(&self, v: PodView) -> bool {
        on_node(v, self.node.deep_view())
    }

    fn accepts(&self, object: &Pod) -> (r: bool) {
        match &self.node {
            Some(name) => match &object.spec.node_name {
                Some(bound) => text::same(bound.as_str(), name.as_str()),
                None => false,
            },
            None => true,
        }
    }
}

/// The events that bring a watcher up to a snapshot: one for each object that
/// is newer than where it left off and that it wants to see, in the order of
/// the snapshot.
pub open spec fn catch_up_events<T: ResourceMeta, F: WatchFilter<T>>(
    snapshot: Seq<T::V>,
    from_rv: u64,
    filter: F,
) -> Seq<WatchEventView<T::V>>
    decreases snapshot.len(),
{
    if snapshot.len() == 0 {
        Seq::empty()
    } else {
        let before = catch_up_events::<T, F>(snapshot.drop_last(), from_rv, filter);
        if newer::<T>(snapshot.last(), from_rv) && filter.passes(snapshot.last()) {
            before.push(
                WatchEventView { event_type: WatchEventType::Added, object: snapshot.last() },
            )
        } else {
            before
        }
    }
}

/// The catch-up phase of a watch.
pub fn catch_up<T: ResourceMeta, F: WatchFilter<T>>(
    snapshot: Vec<T>,
    from_rv: u64,
    filter: &F,
) -> (events: Vec<WatchEvent<T>>)
    ensures
        events.deep_view() == catch_up_events::<T, F>(snapshot.deep_view(), from_rv, *filter),
{
    let ghost all = snapshot.deep_view();
    let mut events: Vec<WatchEvent<T>> = Vec::new();
    proof {
        assert(all.take(0) =~= Seq::<T::V>::empty());
        assert(events.deep_view() =~= Seq::<WatchEventView<T::V>>::empty());
    }
    for i in 0..snapshot.len()
        invariant
            all == snapshot.deep_view(),
            events.deep_view() == catch_up_events::<T, F>(all.take(i as int), from_rv, *filter),
    {
        let object = &snapshot[i];
        let ghost before = events.deep_view();
        proof {
            assert(all.take(i + 1).drop_last() =~= all.take(i as int));
            assert(all.take(i + 1).last() == object.deep_view());
        }
        if object_rv(object) > from_rv && filter.accepts(object) {
            events.push(
                WatchEvent { event_type: WatchEventType::Added, object: object.duplicate() },
            );
            assert(events.deep_view() =~= before.push(
                WatchEventView {
                    event_type: WatchEventType::Added,
                    object: object.deep_view(),
                },
            ));
        }
    }
    assert(all.take(snapshot@.len() as int) =~= all);
    events
}

/// What the live phase of a watch does with what it receives: events that the
/// snapshot already holds are dropped, a lag ends the watch with an error,
/// the end of the store ends it quietly.
#[derive(Debug, Clone, PartialEq)]
pub enum Received<T> {
    Event(WatchEvent<T>),
    Lagged(u64),
    Closed,
}

#[derive(Debug, Clone, PartialEq)]
pub enum Forward<T> {
    Yield(WatchEvent<T>),
    Skip,
    Fail(WatchError),
    End,
}

/// The live phase of a watch: only what is newer than the snapshot and what
/// the watcher wants to see.
pub fn forward<T: ResourceMeta, F: WatchFilter<T>>(
    received: Received<T>,
    snapshot_rv: u64,
    filter: &F,
) -> (next: Forward<T>)
    ensures
        match received {
            Received::Event(event) => if newer::<T>(event.object.deep_view(), snapshot_rv)
                && filter.passes(event.object.deep_view()) {
                next == Forward::Yield(event)
            } else {
                next == Forward::<T>::Skip
            },
            Received::Lagged(skipped) => next == Forward::<T>::Fail(WatchError::Lagged(skipped)),
            Received::Closed => next == Forward::<T>::End,
        },
{
    match received {
        Received::Event(event) => {
            if object_rv(&event.object) > snapshot_rv && filter.accepts(&event.object) {
                Forward::Yield(event)
            } else {
                Forward::Skip
            }
        },
        Received::Lagged(skipped) => Forward::Fail(WatchError::Lagged(skipped)),
        Received::Closed => Forward::End,
    }
}

proof fn caught_up_with_exactly<T: ResourceMeta, F: WatchFilter<T>>(
    snapshot: Seq<T::V>,
    from_rv: u64,
    filter: F,
    v: T::V,
)
    ensures
        catch_up_events::<T, F>(snapshot, from_rv, filter).contains(
            (WatchEventView { event_type: WatchEventType::Added, object: v }),
        ) <==> snapshot.contains(v) && newer::<T>(v, from_rv) && filter.passes(v),
    decreases snapshot.len(),
{
    let event = WatchEventView { event_type: WatchEventType::Added, object: v };
    let all = catch_up_events::<T, F>(snapshot, from_rv, filter);
    if snapshot.len() > 0 {
        let front = snapshot.drop_last();
        let before = catch_up_events::<T, F>(front, from_rv, filter);
        caught_up_with_exactly::<T, F>(front, from_rv, filter, v);
        if snapshot.contains(v) && newer::<T>(v, from_rv) && filter.passes(v) {
            let i = choose|i: int| 0 <= i < snapshot.len() && snapshot[i] == v;
            if i < front.len() {
                assert(front[i] == v);
                let k = choose|k: int| 0 <= k < before.len() && before[k] == event;
                assert(all[k] == event);
            } else {
                assert(all.last() == event);
            }
        }
        if all.contains(event) {
            let k = choose|k: int| 0 <= k < all.len() && all[k] == event;
            if k < before.len() {
                assert(before[k] == event);
                assert(front.contains(v));
                let i = choose|i: int| 0 <= i < front.len() && front[i] == v;
                assert(snapshot[i] == v);
            } else {
                assert(snapshot[snapshot.len() - 1] == v);
            }
        }
    }
}

/// Law: nothing is seen twice and nothing newer is missed: an object that is
/// newer than where the watcher left off comes in the catch-up phase if the
/// snapshot holds it, and in the live phase only if it is newer than the
/// snapshot; what the watcher does not want to see comes in neither.
pub proof fn no_event_twice_and_none_missed<T: ResourceMeta, F: WatchFilter<T>>(
    snapshot: Seq<T::V>,
    snapshot_rv: u64,
    from_rv: u64,
    filter: F,
    v: T::V,
)
    requires
        from_rv <= snapshot_rv,
        forall|i: int|
            0 <= i < snapshot.len() ==> version(T::meta_of(#[trigger] snapshot[i]))
                <= snapshot_rv,
    ensures
        ({
            let event = WatchEventView { event_type: WatchEventType::Added, object: v };
            let caught = catch_up_events::<T, F>(snapshot, from_rv, filter).contains(event);
            &&& !(caught && newer::<T>(v, snapshot_rv))
            &&& snapshot.contains(v) && newer::<T>(v, from_rv) && filter.passes(v) ==> caught
            &&& !newer::<T>(v, from_rv) ==> !caught && !newer::<T>(v, snapshot_rv)
            &&& !filter.passes(v) ==> !caught
        }),
{
    caught_up_with_exactly::<T, F>(snapshot, from_rv, filter, v);
    if snapshot.contains(v) {
        let i = choose|i: int| 0 <= i < snapshot.len() && snapshot[i] == v;
        assert(version(T::meta_of(snapshot[i])) <= snapshot_rv);
    }
}

/// Law: an object's version is the number that its text says, and 0 where the text is
/// missing or no number.
pub proof fn versions_are_read_as_numbers(m: MetaView, n: u64)
    ensures
        m.resource_version == Some(text::decimal_chars(n as nat)) ==> version(m) == n,
        m.resource_version is None ==> version(m) == 0,
        m.resource_version matches Some(s) && text::parsed_u64(s) is None ==> version(m) == 0,
{
    text::decimal_parses_back(n);
}

/// Law: catching up goes through the snapshot in its order. Each object adds one
/// event, which says that it was added and holds it as it is, if its version is above
/// where the watcher left off and the watcher wants to see it; and none otherwise.
pub proof fn each_newer_object_is_caught_up_with<T: ResourceMeta, F: WatchFilter<T>>(
    snapshot: Seq<T::V>,
    more: T::V,
    from_rv: u64,
    filter: F,
)
    ensures
        catch_up_events::<T, F>(Seq::empty(), from_rv, filter).len() == 0,
        catch_up_events::<T, F>(snapshot.push(more), from_rv, filter) == if version(
            T::meta_of(more),
        ) > from_rv && filter.passes(more) {
            catch_up_events::<T, F>(snapshot, from_rv, filter).push(
                WatchEventView { event_type: WatchEventType::Added, object: more },
            )
        } else {
            catch_up_events::<T, F>(snapshot, from_rv, filter)
        },
{
    assert(snapshot.push(more).drop_last() =~= snapshot);
}

/// Law: of what is written while a watch is on, the watcher gets each event that is
/// newer than its snapshot and that it wants to see, as it is and whatever its type.
/// A lag ends the watch with an error that says how much was lost.
pub proof fn live_events_are_passed_on<T: ResourceMeta, F: WatchFilter<T>>(
    received: Received<T>,
    snapshot_rv: u64,
    filter: F,
    next: Forward<T>,
)
    requires
        call_ensures(forward::<T, F>, (received, snapshot_rv, &filter), next),
    ensures
        match received {
            Received::Event(event) => {
                let seen = version(T::meta_of(event.object.deep_view())) > snapshot_rv
                    && filter.passes(event.object.deep_view());
                &&& seen <==> next is Yield
                &&& next matches Forward::Yield(e) ==> e == event
                &&& !seen ==> next is Skip
            },
            Received::Lagged(skipped) => next == Forward::<T>::Fail(WatchError::Lagged(skipped)),
            Received::Closed => next is End,
        },
{
}

/// Law: a watcher of one node sees the Pods that are bound to it; one that names no
/// node sees all.
pub proof fn watchers_see_their_node(filter: NodeFilter, pod: Pod)
    ensures
        WatchFilter::<Pod>::passes(&filter, pod.deep_view()) == match filter.node {
            Some(name) => pod.spec.node_name is Some && pod.spec.node_name->0@ == name@,
            None => true,
        },
        WatchFilter::<Pod>::passes(&Everything, pod.deep_view()),
{
}

} // verus!
