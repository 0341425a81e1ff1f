//! Object storage. A keyspace holds the objects of each kind under their
//! names; one counter numbers the writes of all kinds, and every write leaves
//! an event for the watchers.

use vstd::prelude::*;

use crate::apiserver::watch;
use crate::apiserver::watch::{WatchEvent, WatchEventType, WatchEventView};
use crate::clock;
use crate::duplicate::Duplicate;
use crate::endpoints::Endpoints;
use crate::identity;
use crate::meta;
use crate::meta::{MetaView, ObjectMeta, ResourceMeta};
use crate::names;
use crate::names::NameMap;
use crate::node::Node;
use crate::pod::Pod;
use crate::replicaset::ReplicaSet;
use crate::service::Service;
use crate::text;

verus! {

#[derive(Debug, Clone, PartialEq)]
pub enum StoreError {
    NotFound(String),
    AlreadyExists(String),
    Conflict { current: String, provided: String },
}

/// What a `StoreError` holds.
#[verifier::ext_equal]
pub enum StoreErrorView {
    NotFound(Seq<char>),
    AlreadyExists(Seq<char>),
    Conflict { current: Seq<char>, provided: Seq<char> },
}

impl DeepView for StoreError {
    type V = StoreErrorView;

    open spec fn deep_view(&self) -> StoreErrorView {
        match self {
            StoreError::NotFound(name) => StoreErrorView::NotFound(name@),
            StoreError::AlreadyExists(name) => StoreErrorView::AlreadyExists(name@),
            StoreError::Conflict { current, provided } => StoreErrorView::Conflict {
                current: current@,
                provided: provided@,
            },
        }
    }
}

impl StoreErrorView {
    pub open spec fn message_chars(self) -> Seq<char> {
        match self {
            StoreErrorView::NotFound(name) => "not found: "@ + name,
            StoreErrorView::AlreadyExists(name) => "already exists: "@ + name,
            StoreErrorView::Conflict { current, provided } => "conflict: current rv "@ + current
                + ", provided "@ + provided,
        }
    }
}

impl StoreError {
    /// The error in words.
    pub fn message(&self) -> (s: String)
        ensures
            s@ == self.deep_view().message_chars(),
    {
        match self {
            StoreError::NotFound(name) => "not found: ".to_owned().concat(name.as_str()),
            StoreError::AlreadyExists(name) => "already exists: ".to_owned().concat(name.as_str()),
            StoreError::Conflict { current, provided } => {
                let mut s = "conflict: current rv ".to_owned();
                s.append(current.as_str());
                s.append(", provided ");
                s.append(provided.as_str());
                s
            },
        }
    }
}

/// The name of the counter of all writes.
pub const RV_COUNTER: &'static str = "rv_counter";

/// What the stores of all kinds share: counters by name, the counter of all
/// writes among them.
pub struct Db {
    counters: NameMap<u64>,
}

impl View for Db {
    type V = Map<Seq<char>, u64>;

    closed spec fn view(&self) -> Map<Seq<char>, u64> {
        self.counters@
    }
}

/// The value of a counter; one that was never used is at 0.
pub open spec fn counter(db: Map<Seq<char>, u64>, key: Seq<char>) -> u64 {
    if db.contains_key(key) {
        db[key]
    } else {
        0
    }
}

/// The number after another one; the largest stays where it is.
pub open spec fn next_number(n: u64) -> u64 {
    if n < u64::MAX {
        (n + 1) as u64
    } else {
        n
    }
}

pub open spec fn current_rv_of(db: Map<Seq<char>, u64>) -> u64 {
    counter(db, RV_COUNTER@)
}

/// The shared state after one more write.
pub open spec fn bumped(db: Map<Seq<char>, u64>) -> Map<Seq<char>, u64> {
    db.insert(RV_COUNTER@, next_number(current_rv_of(db)))
}

impl Db {
    pub fn new() -> (db: Self)
        ensures
            db@ == Map::<Seq<char>, u64>::empty(),
    {
        Db { counters: NameMap::new() }
    }

    /// Sets a counter to what it was when it was last kept.
    pub fn restore_counter(&mut self, key: String, value: u64)
        ensures
            final(self)@ == old(self)@.insert(key@, value),
    {
        self.counters.insert(key, value);
    }

    /// The value of a counter.
    pub fn counter_value(&self, key: &str) -> (value: u64)
        ensures
            value == counter(self@, key@),
    {
        match self.counters.get(key) {
            Some(value) => *value,
            None => 0,
        }
    }

    pub fn current_rv(&self) -> (rv: u64)
        ensures
            rv == current_rv_of(self@),
    {
        self.counter_value(RV_COUNTER)
    }

    /// Fetches and increments a named counter: gives the value before, 0 on
    /// the first use.
    pub fn next_index(&mut self, counter_key: &str) -> (previous: u64)
        ensures
            previous == counter(old(self)@, counter_key@),
            final(self)@ == old(self)@.insert(counter_key@, next_number(previous)),
    {
        let current: u64 = self.counter_value(counter_key);
        self.counters.insert(counter_key.to_owned(), current.saturating_add(1));
        current
    }

    /// Numbers one more write.
    fn bump_rv(&mut self) -> (rv: u64)
        ensures
            rv == next_number(current_rv_of(old(self)@)),
            final(self)@ == bumped(old(self)@),
            rv == current_rv_of(final(self)@),
    {
        let previous: u64 = self.next_index(RV_COUNTER);
        previous.saturating_add(1)
    }
}

/// The key of an object in a keyspace that several kinds share.
pub open spec fn key_chars(prefix: Seq<char>, name: Seq<char>) -> Seq<char> {
    prefix + name
}

/// The key of an object in a keyspace that several kinds share.
pub fn object_key<T: ResourceMeta>(name: &str) -> (key: String)
    ensures
        key@ == key_chars(T::prefix(), name@),
{
    T::kind_prefix().to_owned().concat(name)
}

/// The key under which the name of the object of a version is indexed:
/// zero-padded, so that byte order is numeric order.
pub open spec fn rv_index_entry(m: MetaView) -> Option<(Seq<u8>, Seq<char>)> {
    match m.resource_version {
        Some(s) => match text::parsed_u64(s) {
            Some(rv) => Some((text::padded_digits(rv as nat, 20), m.name)),
            None => None,
        },
        None => None,
    }
}

/// What to write to the index of versions for an object, if its version can
/// be read.
pub fn index_rv(m: &ObjectMeta) -> (entry: Option<(Vec<u8>, String)>)
    ensures
        match entry {
            Some((key, name)) => rv_index_entry(m.deep_view()) == Some((key@, name@)),
            None => rv_index_entry(m.deep_view()) is None,
        },
{
    match &m.resource_version {
        Some(s) => match text::parse_u64(s.as_str()) {
            Some(rv) => Some((text::padded_decimal(rv), m.name.clone())),
            None => None,
        },
        None => None,
    }
}

/// The objects of one kind and the events that no one has taken yet.
#[verifier::ext_equal]
pub struct StoreView<V> {
    pub objects: Map<Seq<char>, V>,
    pub events: Seq<WatchEventView<V>>,
}

/// An object with the version of the write that made it.
pub open spec fn versioned<T: ResourceMeta>(v: T::V, rv: u64) -> T::V {
    T::with_meta(
        v,
        MetaView { resource_version: Some(text::decimal_chars(rv as nat)), ..T::meta_of(v) },
    )
}

/// The store after a write: the object under its key, and an event.
pub open spec fn with_object<T: ResourceMeta>(
    s: StoreView<T::V>,
    name: Seq<char>,
    v: T::V,
    event_type: WatchEventType,
) -> StoreView<T::V> {
    StoreView {
        objects: s.objects.insert(name, v),
        events: s.events.push(WatchEventView { event_type, object: v }),
    }
}

/// The store after a removal.
pub open spec fn without_object<T: ResourceMeta>(
    s: StoreView<T::V>,
    name: Seq<char>,
    v: T::V,
) -> StoreView<T::V> {
    StoreView {
        objects: s.objects.remove(name),
        events: s.events.push(WatchEventView { event_type: WatchEventType::Deleted, object: v }),
    }
}

/// The version that a writer has to name.
pub open spec fn version_chars(m: MetaView) -> Seq<char> {
    match m.resource_version {
        Some(s) => s,
        None => Seq::empty(),
    }
}

/// Optimistic concurrency: a writer has to name the version that
/// it has read. Says why it may not write, if it may not.
pub open spec fn refused<T: ResourceMeta>(
    s: StoreView<T::V>,
    name: Seq<char>,
    provided: Option<Seq<char>>,
) -> Option<StoreErrorView> {
    if !s.objects.contains_key(name) {
        Some(StoreErrorView::NotFound(name))
    } else {
        let current = version_chars(T::meta_of(s.objects[name]));
        match provided {
            Some(p) => if p == current {
                None
            } else {
                Some(StoreErrorView::Conflict { current, provided: p })
            },
            None => Some(StoreErrorView::Conflict { current, provided: "(missing)"@ }),
        }
    }
}

/// A stored object with its spec replaced: identity, time of creation and
/// status stay, the generation counts one up.
pub open spec fn respecified<T: ResourceMeta>(new: T::V, current: T::V, rv: u64) -> T::V {
    let cm = T::meta_of(current);
    let moved = T::with_meta(
        new,
        MetaView {
            uid: cm.uid,
            creation_timestamp: cm.creation_timestamp,
            generation: Some(
                next_number(
                    match cm.generation {
                        Some(g) => g,
                        None => 0,
                    },
                ),
            ),
            resource_version: Some(text::decimal_chars(rv as nat)),
            ..T::meta_of(new)
        },
    );
    T::with_status_of(moved, current)
}

/// The contents of a map in name order.
pub open spec fn in_name_order<V>(m: Map<Seq<char>, V>) -> Seq<(Seq<char>, V)> {
    choose|pairs: Seq<(Seq<char>, V)>| names::in_key_order(pairs) && names::as_map(pairs) == m
}

pub open spec fn values_in_name_order<V>(m: Map<Seq<char>, V>) -> Seq<V> {
    Seq::new(in_name_order(m).len(), |i: int| in_name_order(m)[i].1)
}

/// A store, the shared state, and what a request gets.
pub type Written<V> = (StoreView<V>, Map<Seq<char>, u64>, Result<V, StoreErrorView>);

/// What comes of creating an object that has its identity and time.
pub open spec fn created<T: ResourceMeta>(
    s: StoreView<T::V>,
    db: Map<Seq<char>, u64>,
    obj: T::V,
) -> Written<T::V> {
    let name = T::meta_of(obj).name;
    if s.objects.contains_key(name) {
        (s, db, Err(StoreErrorView::AlreadyExists(name)))
    } else {
        let o = versioned::<T>(obj, current_rv_of(bumped(db)));
        (with_object::<T>(s, name, o, WatchEventType::Added), bumped(db), Ok(o))
    }
}

/// What comes of replacing the spec of an object.
pub open spec fn spec_replaced<T: ResourceMeta>(
    s: StoreView<T::V>,
    db: Map<Seq<char>, u64>,
    name: Seq<char>,
    new: T::V,
) -> Written<T::V> {
    match refused::<T>(s, name, T::meta_of(new).resource_version) {
        Some(e) => (s, db, Err(e)),
        None => {
            let o = respecified::<T>(new, s.objects[name], current_rv_of(bumped(db)));
            (with_object::<T>(s, name, o, WatchEventType::Modified), bumped(db), Ok(o))
        },
    }
}

/// What comes of replacing the status of an object, given the object with its
/// new status.
pub open spec fn status_replaced<T: ResourceMeta>(
    s: StoreView<T::V>,
    db: Map<Seq<char>, u64>,
    name: Seq<char>,
    expected_rv: Seq<char>,
    changed: T::V,
) -> Written<T::V> {
    match refused::<T>(s, name, Some(expected_rv)) {
        Some(e) => (s, db, Err(e)),
        None => {
            let o = versioned::<T>(changed, current_rv_of(bumped(db)));
            (with_object::<T>(s, name, o, WatchEventType::Modified), bumped(db), Ok(o))
        },
    }
}

/// What comes of deleting an object.
pub open spec fn deleted<T: ResourceMeta>(
    s: StoreView<T::V>,
    db: Map<Seq<char>, u64>,
    name: Seq<char>,
    expected_rv: Seq<char>,
) -> Written<T::V> {
    match refused::<T>(s, name, Some(expected_rv)) {
        Some(e) => (s, db, Err(e)),
        None => {
            let o = versioned::<T>(s.objects[name], current_rv_of(bumped(db)));
            (without_object::<T>(s, name, o), bumped(db), Ok(o))
        },
    }
}

/// What a request gets, as a model.
pub open spec fn result_of<T: DeepView>(r: Result<T, StoreError>) -> Result<T::V, StoreErrorView> {
    match r {
        Ok(o) => Ok(o.deep_view()),
        Err(e) => Err(e.deep_view()),
    }
}

pub struct ResourceStore<T: ResourceMeta> {
    objects: NameMap<T>,
    events: Vec<WatchEvent<T>>,
}

/// The store of Pods.
pub type PodStore = ResourceStore<Pod>;

impl<T: ResourceMeta> View for ResourceStore<T> {
    type V = StoreView<T::V>;

    closed spec fn view(&self) -> StoreView<T::V> {
        StoreView { objects: self.objects@, events: self.events.deep_view() }
    }
}

/// Lets a writer pass who names the version that is stored.
fn check_rv<T: ResourceMeta>(current: &T, provided: Option<&str>) -> (r: Result<(), StoreError>)
    ensures
        ({
            let held = version_chars(T::meta_of(current.deep_view()));
            match r {
                Ok(_) => provided is Some && provided->0@ == held,
                Err(e) => e.deep_view() == (StoreErrorView::Conflict {
                    current: held,
                    provided: match provided {
                        Some(p) => p@,
                        None => "(missing)"@,
                    },
                }) && (provided matches Some(p) ==> p@ != held),
            }
        }),
{
    let current_rv: String = match &current.meta().resource_version {
        Some(s) => s.clone(),
        None => String::new(),
    };
    match provided {
        Some(p) => {
            if text::same(p, current_rv.as_str()) {
                Ok(())
            } else {
                Err(StoreError::Conflict { current: current_rv, provided: p.to_owned() })
            }
        },
        None => Err(
            StoreError::Conflict { current: current_rv, provided: "(missing)".to_owned() },
        ),
    }
}

impl<T: ResourceMeta> ResourceStore<T> {
    pub fn new() -> (store: Self)
        ensures
            store@ == (StoreView::<T::V> { objects: Map::empty(), events: Seq::empty() }),
    {
        let events: Vec<WatchEvent<T>> = Vec::new();
        assert(events.deep_view() =~= Seq::<WatchEventView<T::V>>::empty());
        ResourceStore { objects: NameMap::new(), events }
    }

    /// Puts back an object that was kept under a name.
    pub fn restore(&mut self, name: String, obj: T)
        ensures
            final(self)@ == (StoreView {
                objects: old(self)@.objects.insert(name@, obj.deep_view()),
                ..old(self)@
            }),
    {
        self.objects.insert(name, obj);
    }

    /// Takes the events of the writes since the last time, in order.
    pub fn take_events(&mut self) -> (events: Vec<WatchEvent<T>>)
        ensures
            events.deep_view() == old(self)@.events,
            final(self)@ == (StoreView { events: Seq::empty(), ..old(self)@ }),
    {
        let mut events: Vec<WatchEvent<T>> = Vec::new();
        std::mem::swap(&mut events, &mut self.events);
        assert(self.events.deep_view() =~= Seq::<WatchEventView<T::V>>::empty());
        events
    }

    fn emit(&mut self, event_type: WatchEventType, object: T)
        ensures
            final(self)@ == (StoreView {
                events: old(self)@.events.push(
                    WatchEventView { event_type, object: object.deep_view() },
                ),
                ..old(self)@
            }),
    {
        let ghost before = self.events.deep_view();
        let ghost event = WatchEventView { event_type, object: object.deep_view() };
        self.events.push(WatchEvent { event_type, object });
        assert(self.events.deep_view() =~= before.push(event));
    }

    pub fn get(&self, name: &str) -> (obj: Option<T>)
        ensures
            match obj {
                Some(o) => self@.objects.contains_key(name@) && o.deep_view()
                    == self@.objects[name@],
                None => !self@.objects.contains_key(name@),
            },
    {
        match self.objects.get(name) {
            Some(o) => Some(o.duplicate()),
            None => None,
        }
    }

    /// All objects in name order, and the version of the last write.
    pub fn list(&self, db: &Db) -> (r: (Vec<T>, u64))
        ensures
            r.0.deep_view() == values_in_name_order(self@.objects),
            r.1 == current_rv_of(db@),
    {
        let pairs = self.objects.pairs();
        let ghost held = pairs.deep_view();
        let mut items: Vec<T> = Vec::new();
        for i in 0..pairs.len()
            invariant
                held == pairs.deep_view(),
                items@.len() == i,
                forall|k: int| 0 <= k < i ==> (#[trigger] items@[k]).deep_view() == held[k].1,
        {
            items.push(pairs[i].1.duplicate());
        }
        proof {
            names::form_is_canonical(held, in_name_order(self@.objects));
            assert(items.deep_view() =~= values_in_name_order(self@.objects));
        }
        (items, db.current_rv())
    }

    /// Creates an object with an identity and time of its own.
    pub fn create(&mut self, db: &mut Db, obj: T) -> (r: Result<T, StoreError>)
        ensures
            exists|uid: Seq<char>, created_at: Seq<char>|
                identity::is_uid(uid) && (final(self)@, final(db)@, result_of(r)) == created::<T>(
                    old(self)@,
                    old(db)@,
                    #[trigger] meta::stamped::<T>(obj.deep_view(), uid, created_at),
                ),
    {
        let mut obj = obj;
        let ghost given = obj.deep_view();
        let uid = identity::new_uid();
        let created = clock::now_rfc3339();
        let ghost stamp = (uid@, created@);
        meta::stamp_for_create(&mut obj, uid, created);
        assert(obj.deep_view() == meta::stamped::<T>(given, stamp.0, stamp.1));
        self.create_prestamped(db, obj)
    }

    /// Creates an object that already has its identity and time. The version
    /// is still assigned here.
    pub fn create_prestamped(&mut self, db: &mut Db, obj: T) -> (r: Result<T, StoreError>)
        ensures
            (final(self)@, final(db)@, result_of(r)) == created::<T>(
                old(self)@,
                old(db)@,
                obj.deep_view(),
            ),
    {
        let name = obj.meta().name.clone();
        if self.objects.contains_key(name.as_str()) {
            return Err(StoreError::AlreadyExists(name));
        }
        let rv: u64 = db.bump_rv();
        let mut o = obj;
        let version = text::decimal(rv);
        let m = o.meta_mut();
        m.resource_version = Some(version);
        let stored = o.duplicate();
        let shown = o.duplicate();
        self.objects.insert(name, stored);
        self.emit(WatchEventType::Added, shown);
        Ok(o)
    }

    /// Replaces the spec of an object, if the writer names the version that is
    /// stored.
    pub fn replace_spec(&mut self, db: &mut Db, name: &str, new_obj: T) -> (r: Result<
        T,
        StoreError,
    >)
        ensures
            (final(self)@, final(db)@, result_of(r)) == spec_replaced::<T>(
                old(self)@,
                old(db)@,
                name@,
                new_obj.deep_view(),
            ),
    {
        let current = match self.objects.get(name) {
            Some(current) => current.duplicate(),
            None => {
                return Err(StoreError::NotFound(name.to_owned()));
            },
        };
        let provided: Option<&str> = match &new_obj.meta().resource_version {
            Some(s) => Some(s.as_str()),
            None => None,
        };
        if let Err(e) = check_rv(&current, provided) {
            return Err(e);
        }
        let rv: u64 = db.bump_rv();
        let version = text::decimal(rv);
        let generation: u64 = match current.meta().generation {
            Some(g) => g,
            None => 0,
        };
        let uid = current.meta().uid.duplicate();
        let created = current.meta().creation_timestamp.duplicate();
        let mut o = new_obj;
        let m = o.meta_mut();
        m.uid = uid;
        m.creation_timestamp = created;
        m.generation = Some(generation.saturating_add(1));
        m.resource_version = Some(version);
        o.inherit_status(&current);
        let stored = o.duplicate();
        let shown = o.duplicate();
        self.objects.insert(name.to_owned(), stored);
        self.emit(WatchEventType::Modified, shown);
        Ok(o)
    }

    /// Replaces the status of an object by whatever change the caller makes,
    /// if the caller names the version that is stored. The store does not know
    /// what a status is.
    pub fn replace_status<F: Fn(T) -> T>(
        &mut self,
        db: &mut Db,
        name: &str,
        expected_rv: &str,
        change: F,
    ) -> (r: Result<T, StoreError>)
        requires
            forall|t: T| #[trigger] change.requires((t,)),
        ensures
            match refused::<T>(old(self)@, name@, Some(expected_rv@)) {
                Some(e) => {
                    &&& result_of(r) == Err::<T::V, StoreErrorView>(e)
                    &&& final(self)@ == old(self)@
                    &&& final(db)@ == old(db)@
                },
                None => exists|before: T, after: T|
                    {
                        &&& #[trigger] change.ensures((before,), after)
                        &&& before.deep_view() == old(self)@.objects[name@]
                        &&& (final(self)@, final(db)@, result_of(r)) == status_replaced::<T>(
                            old(self)@,
                            old(db)@,
                            name@,
                            expected_rv@,
                            after.deep_view(),
                        )
                    },
            },
    {
        let current = match self.objects.get(name) {
            Some(current) => current.duplicate(),
            None => {
                return Err(StoreError::NotFound(name.to_owned()));
            },
        };
        if let Err(e) = check_rv(&current, Some(expected_rv)) {
            return Err(e);
        }
        let rv: u64 = db.bump_rv();
        let version = text::decimal(rv);
        let ghost before = current;
        let mut o = change(current);
        let ghost after = o;
        assert(change.ensures((before,), after));
        let m = o.meta_mut();
        m.resource_version = Some(version);
        let stored = o.duplicate();
        let shown = o.duplicate();
        self.objects.insert(name.to_owned(), stored);
        self.emit(WatchEventType::Modified, shown);
        Ok(o)
    }

    /// Deletes an object, if the caller names the version that is stored.
    pub fn delete(&mut self, db: &mut Db, name: &str, expected_rv: &str) -> (r: Result<
        T,
        StoreError,
    >)
        ensures
            (final(self)@, final(db)@, result_of(r)) == deleted::<T>(
                old(self)@,
                old(db)@,
                name@,
                expected_rv@,
            ),
    {
        match self.objects.get(name) {
            Some(current) => {
                if let Err(e) = check_rv(current, Some(expected_rv)) {
                    return Err(e);
                }
            },
            None => {
                return Err(StoreError::NotFound(name.to_owned()));
            },
        }
        let rv: u64 = db.bump_rv();
        let version = text::decimal(rv);
        match self.objects.remove(name) {
            Some(removed) => {
                let mut removed = removed;
                let m = removed.meta_mut();
                m.resource_version = Some(version);
                let shown = removed.duplicate();
                self.emit(WatchEventType::Deleted, shown);
                Ok(removed)
            },
            None => Err(StoreError::NotFound(name.to_owned())),
        }
    }
}

/// Law: every write gets a number of its own, above all before, whatever its
/// kind.
pub proof fn versions_go_up(db: Map<Seq<char>, u64>)
    requires
        current_rv_of(db) < u64::MAX,
    ensures
        current_rv_of(bumped(db)) == current_rv_of(db) + 1,
        forall|key: Seq<char>| #[trigger]
            counter(bumped(db), key) == counter(db, key) || key == RV_COUNTER@,
{
}

/// Law: the version of a stored object is the number of the write that made it.
pub proof fn version_is_number_of_write<T: ResourceMeta>(v: T::V, rv: u64)
    ensures
        watch::version(T::meta_of(versioned::<T>(v, rv))) == rv,
        version_chars(T::meta_of(versioned::<T>(v, rv))) == text::decimal_chars(rv as nat),
        T::meta_of(versioned::<T>(v, rv)).name == T::meta_of(v).name,
        T::meta_of(versioned::<T>(v, rv)).generation == T::meta_of(v).generation,
        T::meta_of(versioned::<T>(v, rv)).uid == T::meta_of(v).uid,
{
    let m = MetaView {
        resource_version: Some(text::decimal_chars(rv as nat)),
        ..T::meta_of(v)
    };
    T::parts_are_independent(v, m, v);
    text::decimal_parses_back(rv);
}

/// Law: what is written is what is read, and a write touches no other object.
pub proof fn reads_give_back_writes<T: ResourceMeta>(
    s: StoreView<T::V>,
    name: Seq<char>,
    v: T::V,
    event_type: WatchEventType,
    other: Seq<char>,
)
    ensures
        with_object::<T>(s, name, v, event_type).objects.contains_key(name),
        with_object::<T>(s, name, v, event_type).objects[name] == v,
        with_object::<T>(s, name, v, event_type).events.last() == (WatchEventView {
            event_type,
            object: v,
        }),
        !without_object::<T>(s, name, v).objects.contains_key(name),
        other != name ==> {
            &&& with_object::<T>(s, name, v, event_type).objects.contains_key(other)
                == s.objects.contains_key(other)
            &&& with_object::<T>(s, name, v, event_type).objects[other] == s.objects[other]
            &&& without_object::<T>(s, name, v).objects.contains_key(other)
                == s.objects.contains_key(other)
            &&& without_object::<T>(s, name, v).objects[other] == s.objects[other]
        },
{
}

/// Law: a spec write counts the generation up and keeps identity, time of
/// creation and status; a status write leaves the generation alone.
pub proof fn generation_counts_spec_writes<T: ResourceMeta>(
    new: T::V,
    current: T::V,
    generation: u64,
    rv: u64,
)
    requires
        T::meta_of(current).generation == Some(generation),
        generation < u64::MAX,
    ensures
        ({
            let m = T::meta_of(respecified::<T>(new, current, rv));
            &&& m.generation == Some((generation + 1) as u64)
            &&& m.uid == T::meta_of(current).uid
            &&& m.creation_timestamp == T::meta_of(current).creation_timestamp
            &&& m.resource_version == Some(text::decimal_chars(rv as nat))
            &&& m.name == T::meta_of(new).name
            &&& m.labels == T::meta_of(new).labels
        }),
        T::meta_of(versioned::<T>(current, rv)).generation == Some(generation),
{
    let cm = T::meta_of(current);
    let m = MetaView {
        uid: cm.uid,
        creation_timestamp: cm.creation_timestamp,
        generation: Some(next_number(generation)),
        resource_version: Some(text::decimal_chars(rv as nat)),
        ..T::meta_of(new)
    };
    T::parts_are_independent(new, m, current);
    T::parts_are_independent(T::with_meta(new, m), m, current);
    version_is_number_of_write::<T>(current, rv);
}

/// Law: of two writers that have read the same version only the first gets
/// through: the second is told of the conflict.
pub proof fn second_writer_is_refused<T: ResourceMeta>(
    s: StoreView<T::V>,
    name: Seq<char>,
    read: u64,
    written: T::V,
    rv: u64,
    event_type: WatchEventType,
)
    requires
        refused::<T>(s, name, Some(text::decimal_chars(read as nat))) is None,
        read < rv,
    ensures
        ({
            let after = with_object::<T>(s, name, versioned::<T>(written, rv), event_type);
            refused::<T>(after, name, Some(text::decimal_chars(read as nat))) == Some(
                StoreErrorView::Conflict {
                    current: text::decimal_chars(rv as nat),
                    provided: text::decimal_chars(read as nat),
                },
            )
        }),
        refused::<T>(
            with_object::<T>(s, name, versioned::<T>(written, rv), event_type),
            name,
            Some(text::decimal_chars(rv as nat)),
        ) is None,
{
    version_is_number_of_write::<T>(written, rv);
    text::decimal_parses_back(read);
    text::decimal_parses_back(rv);
}

/// No object is of a version that has not been given out yet.
pub open spec fn versions_given_out<T: ResourceMeta>(
    s: StoreView<T::V>,
    db: Map<Seq<char>, u64>,
) -> bool {
    forall|name: Seq<char>| #[trigger]
        s.objects.contains_key(name) ==> watch::version(T::meta_of(s.objects[name]))
            <= current_rv_of(db)
}

/// Law: no stored object has a version that was not given out yet. Every write
/// keeps it so, in its own store and in those of other kinds.
pub proof fn versions_stay_given_out<T: ResourceMeta>(
    s: StoreView<T::V>,
    db: Map<Seq<char>, u64>,
    name: Seq<char>,
    v: T::V,
    event_type: WatchEventType,
)
    requires
        versions_given_out::<T>(s, db),
    ensures
        versions_given_out::<T>(s, bumped(db)),
        versions_given_out::<T>(
            with_object::<T>(
                s,
                name,
                versioned::<T>(v, current_rv_of(bumped(db))),
                event_type,
            ),
            bumped(db),
        ),
        versions_given_out::<T>(without_object::<T>(s, name, v), bumped(db)),
{
    version_is_number_of_write::<T>(v, current_rv_of(bumped(db)));
    assert(current_rv_of(bumped(db)) >= current_rv_of(db));
}

/// Law: keys of different kinds never meet in a shared keyspace, nor do they
/// meet the counter of all writes.
pub proof fn kinds_are_isolated(a: Seq<char>, b: Seq<char>)
    ensures
        key_chars(<Pod as ResourceMeta>::prefix(), a) != key_chars(
            <ReplicaSet as ResourceMeta>::prefix(),
            b,
        ),
        key_chars(<Pod as ResourceMeta>::prefix(), a) != key_chars(
            <Node as ResourceMeta>::prefix(),
            b,
        ),
        key_chars(<Pod as ResourceMeta>::prefix(), a) != key_chars(
            <Service as ResourceMeta>::prefix(),
            b,
        ),
        key_chars(<Pod as ResourceMeta>::prefix(), a) != key_chars(
            <Endpoints as ResourceMeta>::prefix(),
            b,
        ),
        key_chars(<ReplicaSet as ResourceMeta>::prefix(), a) != key_chars(
            <Node as ResourceMeta>::prefix(),
            b,
        ),
        key_chars(<ReplicaSet as ResourceMeta>::prefix(), a) != key_chars(
            <Service as ResourceMeta>::prefix(),
            b,
        ),
        key_chars(<ReplicaSet as ResourceMeta>::prefix(), a) != key_chars(
            <Endpoints as ResourceMeta>::prefix(),
            b,
        ),
        key_chars(<Node as ResourceMeta>::prefix(), a) != key_chars(
            <Service as ResourceMeta>::prefix(),
            b,
        ),
        key_chars(<Node as ResourceMeta>::prefix(), a) != key_chars(
            <Endpoints as ResourceMeta>::prefix(),
            b,
        ),
        key_chars(<Service as ResourceMeta>::prefix(), a) != key_chars(
            <Endpoints as ResourceMeta>::prefix(),
            b,
        ),
        key_chars(<ReplicaSet as ResourceMeta>::prefix(), a) != RV_COUNTER@,
{
    reveal_strlit("pods/");
    reveal_strlit("replicasets/");
    reveal_strlit("nodes/");
    reveal_strlit("services/");
    reveal_strlit("endpoints/");
    reveal_strlit("rv_counter");
    let p = key_chars(<Pod as ResourceMeta>::prefix(), a);
    let r = key_chars(<ReplicaSet as ResourceMeta>::prefix(), b);
    assert(p[0] == 'p');
    assert(r[0] == 'r');
    assert(key_chars(<ReplicaSet as ResourceMeta>::prefix(), a)[0] == 'r');
    assert(key_chars(<ReplicaSet as ResourceMeta>::prefix(), a)[1] == 'e');
    assert(key_chars(<Node as ResourceMeta>::prefix(), a)[0] == 'n');
    assert(key_chars(<Node as ResourceMeta>::prefix(), b)[0] == 'n');
    assert(key_chars(<Service as ResourceMeta>::prefix(), a)[0] == 's');
    assert(key_chars(<Service as ResourceMeta>::prefix(), b)[0] == 's');
    assert(key_chars(<Endpoints as ResourceMeta>::prefix(), b)[0] == 'e');
    assert(RV_COUNTER@[1] == 'v');
}

/// Law: objects of one kind have different keys if they have different names.
pub proof fn names_are_told_apart(prefix: Seq<char>, a: Seq<char>, b: Seq<char>)
    requires
        key_chars(prefix, a) == key_chars(prefix, b),
    ensures
        a == b,
{
    assert(a =~= key_chars(prefix, a).skip(prefix.len() as int));
    assert(b =~= key_chars(prefix, b).skip(prefix.len() as int));
}

} // verus!
