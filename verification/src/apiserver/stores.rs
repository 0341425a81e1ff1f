//! What a store of any kind of object does on each call.

use vstd::prelude::*;

use crate::apiserver::storage;
use crate::apiserver::storage::{Db, ResourceStore, StoreError};
use crate::apiserver::watch::{WatchEventType, WatchEventView};
use crate::identity;
use crate::meta;
use crate::meta::{MetaView, ResourceMeta};
use crate::text;

verus! {

/// How many writes were numbered so far.
pub open spec fn written(db: Map<Seq<char>, u64>) -> int {
    if db.contains_key("rv_counter"@) {
        db["rv_counter"@] as int
    } else {
        0
    }
}

/// One more write was numbered, and no other counter was touched; the number is
/// an object's version.
pub open spec fn numbered(
    before: Map<Seq<char>, u64>,
    after: Map<Seq<char>, u64>,
    m: MetaView,
) -> bool {
    &&& written(before) < u64::MAX ==> written(after) == written(before) + 1
    &&& m.resource_version == Some(text::decimal_chars(written(after) as nat))
    &&& forall|key: Seq<char>|
        key != "rv_counter"@ ==> (#[trigger] after.contains_key(key) <==> before.contains_key(
            key,
        )) && after[key] == before[key]
}

/// Law: an object is created where its name is free: it is stored under its name
/// and nothing else changes, it gets an identity and its first generation, its
/// version is the number of the write, and watchers are told. Where the name is
/// taken, nothing changes.
pub proof fn created_objects_are_stored<T: ResourceMeta>(
    store: &mut ResourceStore<T>,
    db: &mut Db,
    obj: T,
    r: Result<T, StoreError>,
)
    requires
        call_ensures(ResourceStore::<T>::create, (store, db, obj), r),
    ensures
        ({
            let (was, now) = (old(store)@, final(store)@);
            let name = T::meta_of(obj.deep_view()).name;
            &&& r is Ok <==> !was.objects.contains_key(name)
            &&& match r {
                Ok(o) => {
                    let m = T::meta_of(o.deep_view());
                    &&& now.objects == was.objects.insert(name, o.deep_view())
                    &&& now.events == was.events.push(
                        WatchEventView {
                            event_type: WatchEventType::Added,
                            object: o.deep_view(),
                        },
                    )
                    &&& m.name == name
                    &&& m.labels == T::meta_of(obj.deep_view()).labels
                    &&& m.owner_references == T::meta_of(obj.deep_view()).owner_references
                    &&& m.generation == Some(1u64)
                    &&& m.uid is Some && identity::is_uid(m.uid->0)
                    &&& m.creation_timestamp is Some
                    &&& numbered(old(db)@, final(db)@, m)
                },
                Err(StoreError::AlreadyExists(taken)) => taken@ == name && now == was
                    && final(db)@ == old(db)@,
                _ => false,
            }
        }),
{
    let v = obj.deep_view();
    let (uid, created) = choose|uid: Seq<char>, created: Seq<char>|
        identity::is_uid(uid) && (final(store)@, final(db)@, storage::result_of(r))
            == storage::created::<T>(
            old(store)@,
            old(db)@,
            #[trigger] meta::stamped::<T>(v, uid, created),
        );
    T::parts_are_independent(v, T::meta_of(v), v);
    let cleared = T::without_status(v);
    let m = meta::stamped_meta(T::meta_of(cleared), uid, created);
    T::parts_are_independent(cleared, m, v);
    let stamped = meta::stamped::<T>(v, uid, created);
    let rv = storage::current_rv_of(storage::bumped(old(db)@));
    T::parts_are_independent(
        stamped,
        MetaView { resource_version: Some(text::decimal_chars(rv as nat)), ..m },
        v,
    );
}

/// Law: an object is replaced where one is stored under the name and its version
/// is named. Its identity and time of creation stay, its generation counts up,
/// its version is the number of the write, and watchers are told; nothing else
/// changes. A missing object and a version that is out of date are told apart,
/// and change nothing.
pub proof fn replaced_objects_are_stored<T: ResourceMeta>(
    store: &mut ResourceStore<T>,
    db: &mut Db,
    name: &str,
    obj: T,
    r: Result<T, StoreError>,
)
    requires
        call_ensures(ResourceStore::<T>::replace_spec, (store, db, name, obj), r),
    ensures
        ({
            let (was, now) = (old(store)@, final(store)@);
            let sent = T::meta_of(obj.deep_view());
            let before = T::meta_of(was.objects[name@]);
            let current = match before.resource_version {
                Some(rv) => rv,
                None => Seq::empty(),
            };
            &&& r is Ok <==> was.objects.contains_key(name@) && sent.resource_version == Some(
                current,
            )
            &&& match r {
                Ok(o) => {
                    let m = T::meta_of(o.deep_view());
                    &&& now.objects == was.objects.insert(name@, o.deep_view())
                    &&& now.events == was.events.push(
                        WatchEventView {
                            event_type: WatchEventType::Modified,
                            object: o.deep_view(),
                        },
                    )
                    &&& m.name == sent.name
                    &&& m.labels == sent.labels
                    &&& m.owner_references == sent.owner_references
                    &&& m.uid == before.uid
                    &&& m.creation_timestamp == before.creation_timestamp
                    &&& m.generation is Some
                    &&& before.generation is None ==> m.generation == Some(1u64)
                    &&& before.generation is Some && before.generation->0 < u64::MAX
                        ==> m.generation->0 == before.generation->0 + 1
                    &&& numbered(old(db)@, final(db)@, m)
                },
                Err(e) => {
                    &&& now == was
                    &&& final(db)@ == old(db)@
                    &&& match e {
                        StoreError::NotFound(missing) => missing@ == name@
                            && !was.objects.contains_key(name@),
                        StoreError::Conflict { current: c, provided } => {
                            &&& was.objects.contains_key(name@)
                            &&& c@ == current
                            &&& provided@ == (match sent.resource_version {
                                Some(rv) => rv,
                                None => "(missing)"@,
                            })
                        },
                        _ => false,
                    }
                },
            }
        }),
{
    let v = obj.deep_view();
    let stored = old(store)@.objects[name@];
    let rv = storage::current_rv_of(storage::bumped(old(db)@));
    let cm = T::meta_of(stored);
    let m = MetaView {
        uid: cm.uid,
        creation_timestamp: cm.creation_timestamp,
        generation: Some(
            storage::next_number(
                match cm.generation {
                    Some(g) => g,
                    None => 0,
                },
            ),
        ),
        resource_version: Some(text::decimal_chars(rv as nat)),
        ..T::meta_of(v)
    };
    T::parts_are_independent(v, m, stored);
    T::parts_are_independent(T::with_meta(v, m), m, stored);
}

/// Law: an object is deleted where one is stored under the name and its version
/// is named; nothing else changes, and watchers are told. A missing object and a
/// version that is out of date are told apart, and change nothing.
pub proof fn deleted_objects_are_gone<T: ResourceMeta>(
    store: &mut ResourceStore<T>,
    db: &mut Db,
    name: &str,
    expected_rv: &str,
    r: Result<T, StoreError>,
)
    requires
        call_ensures(ResourceStore::<T>::delete, (store, db, name, expected_rv), r),
    ensures
        ({
            let (was, now) = (old(store)@, final(store)@);
            let before = T::meta_of(was.objects[name@]);
            let current = match before.resource_version {
                Some(rv) => rv,
                None => Seq::empty(),
            };
            &&& r is Ok <==> was.objects.contains_key(name@) && expected_rv@ == current
            &&& match r {
                Ok(o) => {
                    let m = T::meta_of(o.deep_view());
                    &&& now.objects == was.objects.remove(name@)
                    &&& now.events == was.events.push(
                        WatchEventView {
                            event_type: WatchEventType::Deleted,
                            object: o.deep_view(),
                        },
                    )
                    &&& m == (MetaView { resource_version: m.resource_version, ..before })
                    &&& numbered(old(db)@, final(db)@, m)
                },
                Err(e) => {
                    &&& now == was
                    &&& final(db)@ == old(db)@
                    &&& match e {
                        StoreError::NotFound(missing) => missing@ == name@
                            && !was.objects.contains_key(name@),
                        StoreError::Conflict { current: c, provided } => {
                            &&& was.objects.contains_key(name@)
                            &&& c@ == current
                            &&& provided@ == expected_rv@
                        },
                        _ => false,
                    }
                },
            }
        }),
{
    let stored = old(store)@.objects[name@];
    let rv = storage::current_rv_of(storage::bumped(old(db)@));
    let m = MetaView {
        resource_version: Some(text::decimal_chars(rv as nat)),
        ..T::meta_of(stored)
    };
    T::parts_are_independent(stored, m, stored);
}

/// Law: a read finds exactly what is stored under a name, and a counter counts
/// up by one each time, from nothing, without touching the others.
pub proof fn reads_and_counters<T: ResourceMeta>(
    store: &ResourceStore<T>,
    name: &str,
    found: Option<T>,
    db: &mut Db,
    key: &str,
    previous: u64,
    other: Seq<char>,
)
    requires
        call_ensures(ResourceStore::<T>::get, (store, name), found),
        call_ensures(Db::next_index, (db, key), previous),
    ensures
        match found {
            Some(o) => store@.objects.contains_key(name@) && o.deep_view() == store@.objects[name@],
            None => !store@.objects.contains_key(name@),
        },
        previous == (if old(db)@.contains_key(key@) {
            old(db)@[key@]
        } else {
            0
        }),
        final(db)@.contains_key(key@),
        previous < u64::MAX ==> final(db)@[key@] == previous + 1,
        other != key@ ==> final(db)@.contains_key(other) == old(db)@.contains_key(other)
            && final(db)@[other] == old(db)@[other],
{
}


/// Law: a status is set where an object is stored under the name and its version
/// is named: the stored object is what the change makes of it, in a new version,
/// and watchers are told; nothing else changes. A missing object and a version
/// that is out of date are told apart, and change nothing.
pub proof fn changed_statuses_are_stored<T: ResourceMeta, F: Fn(T) -> T>(
    store: &mut ResourceStore<T>,
    db: &mut Db,
    name: &str,
    expected_rv: &str,
    change: F,
    r: Result<T, StoreError>,
)
    requires
        call_ensures(
            ResourceStore::<T>::replace_status::<F>,
            (store, db, name, expected_rv, change),
            r,
        ),
    ensures
        ({
            let (was, now) = (old(store)@, final(store)@);
            let before = T::meta_of(was.objects[name@]);
            let current = match before.resource_version {
                Some(rv) => rv,
                None => Seq::empty(),
            };
            &&& r is Ok <==> was.objects.contains_key(name@) && expected_rv@ == current
            &&& match r {
                Ok(o) => {
                    let m = T::meta_of(o.deep_view());
                    &&& now.objects == was.objects.insert(name@, o.deep_view())
                    &&& now.events == was.events.push(
                        WatchEventView {
                            event_type: WatchEventType::Modified,
                            object: o.deep_view(),
                        },
                    )
                    &&& numbered(old(db)@, final(db)@, m)
                    &&& exists|a: T, b: T| #[trigger]
                        change.ensures((a,), b) && a.deep_view() == was.objects[name@]
                            && o.deep_view() == T::with_meta(b.deep_view(), m)
                },
                Err(e) => {
                    &&& now == was
                    &&& final(db)@ == old(db)@
                    &&& match e {
                        StoreError::NotFound(missing) => missing@ == name@
                            && !was.objects.contains_key(name@),
                        StoreError::Conflict { current: c, provided } => {
                            &&& was.objects.contains_key(name@)
                            &&& c@ == current
                            &&& provided@ == expected_rv@
                        },
                        _ => false,
                    }
                },
            }
        }),
{
    if storage::refused::<T>(old(store)@, name@, Some(expected_rv@)) is None {
        let (a, b) = choose|a: T, b: T|
            {
                &&& #[trigger] change.ensures((a,), b)
                &&& a.deep_view() == old(store)@.objects[name@]
                &&& (final(store)@, final(db)@, storage::result_of(r))
                    == storage::status_replaced::<T>(
                    old(store)@,
                    old(db)@,
                    name@,
                    expected_rv@,
                    b.deep_view(),
                )
            };
        let rv = storage::current_rv_of(storage::bumped(old(db)@));
        let m = MetaView {
            resource_version: Some(text::decimal_chars(rv as nat)),
            ..T::meta_of(b.deep_view())
        };
        T::parts_are_independent(b.deep_view(), m, b.deep_view());
        assert(change.ensures((a,), b));
    }
}

} // verus!
