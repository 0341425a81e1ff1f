//! What the stores hold after each request, told from what they held and from
//! what was sent.

use vstd::prelude::*;

use crate::apiserver::applier;
use crate::apiserver::applier::ReplicaView;
use crate::apiserver::command::ObjectView;
use crate::apiserver::handlers;
use crate::apiserver::handlers::ApiErrorView;
use crate::apiserver::services;
use crate::apiserver::storage;
use crate::apiserver::watch;
use crate::apiserver::watch::{WatchEventType, WatchEventView};
use crate::endpoints::{Endpoints, EndpointsView};
use crate::meta::{MetaView, ResourceMeta};
use crate::names;
use crate::node::{Node, NodeStatusView, NodeView};
use crate::pod::{Pod, PodSpecView, PodStatusView, PodView};
use crate::replicaset::{ReplicaSet, ReplicaSetStatus, ReplicaSetView};
use crate::service::{Service, ServiceView};
use crate::text;

verus! {

/// How many writes a server has numbered.
pub open spec fn writes_numbered(r: ReplicaView) -> int {
    if r.db.contains_key("rv_counter"@) {
        r.db["rv_counter"@] as int
    } else {
        0
    }
}

/// One more write was numbered, and an object's version is its number.
pub open spec fn bears_next_number(before: ReplicaView, after: ReplicaView, m: MetaView) -> bool {
    &&& writes_numbered(before) < u64::MAX ==> writes_numbered(after) == writes_numbered(before) + 1
    &&& m.resource_version == Some(text::decimal_chars(writes_numbered(after) as nat))
}

/// All objects but the one of a name are as they were.
pub open spec fn others_stay<V>(
    before: Map<Seq<char>, V>,
    after: Map<Seq<char>, V>,
    name: Seq<char>,
) -> bool {
    forall|n: Seq<char>|
        #![trigger after.contains_key(n)]
        #![trigger after[n]]
        n != name ==> after.contains_key(n) == before.contains_key(n) && after[n] == before[n]
}

/// The version that an object is in, as a writer has to name it.
pub open spec fn version_of(m: MetaView) -> Seq<char> {
    match m.resource_version {
        Some(rv) => rv,
        None => Seq::empty(),
    }
}

/// The generation after another one.
pub open spec fn generation_after(g: Option<u64>) -> int {
    match g {
        Some(g) => if g == u64::MAX {
            g as int
        } else {
            g + 1
        },
        None => 1,
    }
}

/// Law: a Pod is created if it is valid and its name is free. It is then stored
/// under its name as it was sent, without a status, with the identity, time and first
/// generation that the server gives it, in a new version; watchers are told. Where
/// it is refused nothing changes.
pub proof fn created_pods_are_stored(
    r: ReplicaView,
    v: PodView,
    uid: Seq<char>,
    created: Seq<char>,
)
    ensures
        ({
            let (after, answer) = handlers::performed(
                r,
                handlers::create_planned::<Pod>(v, uid, created),
            );
            let name = v.metadata.name;
            let now = after.pods.objects[name];
            match answer {
                Ok(o) => {
                    &&& name.len() > 0 && !(v.spec.containers.len() == 0)
                    &&& !r.pods.objects.contains_key(name)
                    &&& after.pods.objects.contains_key(name)
                    &&& o == ObjectView::Pod(now)
                    &&& now.spec == v.spec
                    &&& now.status is None
                    &&& now.api_version == v.api_version
                    &&& now.kind == v.kind
                    &&& now.metadata.name == name
                    &&& now.metadata.labels == v.metadata.labels
                    &&& now.metadata.owner_references == v.metadata.owner_references
                    &&& now.metadata.uid == Some(uid)
                    &&& now.metadata.creation_timestamp == Some(created)
                    &&& now.metadata.generation == Some(1u64)
                    &&& bears_next_number(r, after, now.metadata)
                    &&& others_stay(r.pods.objects, after.pods.objects, name)
                    &&& after.pods.events == r.pods.events.push(
                        WatchEventView { event_type: WatchEventType::Added, object: now },
                    )
                },
                Err(e) => after == r && {
                    if v.metadata.name.len() == 0 {
                        e == ApiErrorView::BadRequest("metadata.name must not be empty"@)
                    } else if v.spec.containers.len() == 0 {
                        e == ApiErrorView::BadRequest("spec.containers must not be empty"@)
                    } else {
                        r.pods.objects.contains_key(name) && e == ApiErrorView::AlreadyExists(name)
                    }
                },
            }
        }),
{
}

/// Law: a Pod is replaced if what was sent is valid, bears the name it is sent to,
/// and names the version that is stored. It is then stored as it was sent, but for
/// what is the server's to say: identity and time of creation, and the status, stay, the
/// generation counts one up, and the version is new; watchers are told. Where it is
/// refused nothing changes.
pub proof fn replaced_pods_are_stored(r: ReplicaView, name: Seq<char>, v: PodView)
    ensures
        ({
            let (after, answer) = handlers::performed(
                r,
                handlers::replace_planned::<Pod>(name, v),
            );
            let old = r.pods.objects[name];
            let now = after.pods.objects[name];
            match answer {
                Ok(o) => {
                    &&& v.metadata.name.len() > 0 && !(v.spec.containers.len() == 0)
                    &&& v.metadata.name == name
                    &&& r.pods.objects.contains_key(name)
                    &&& v.metadata.resource_version == Some(version_of(old.metadata))
                    &&& after.pods.objects.contains_key(name)
                    &&& o == ObjectView::Pod(now)
                    &&& now.spec == v.spec
                    &&& now.status == old.status
                    &&& now.api_version == v.api_version
                    &&& now.kind == v.kind
                    &&& now.metadata.name == name
                    &&& now.metadata.labels == v.metadata.labels
                    &&& now.metadata.owner_references == v.metadata.owner_references
                    &&& now.metadata.uid == old.metadata.uid
                    &&& now.metadata.creation_timestamp == old.metadata.creation_timestamp
                    &&& now.metadata.generation matches Some(g) && g == generation_after(
                        old.metadata.generation,
                    )
                    &&& bears_next_number(r, after, now.metadata)
                    &&& others_stay(r.pods.objects, after.pods.objects, name)
                    &&& after.pods.events == r.pods.events.push(
                        WatchEventView { event_type: WatchEventType::Modified, object: now },
                    )
                },
                Err(e) => after == r && {
                    if v.metadata.name.len() == 0 {
                        e == ApiErrorView::BadRequest("metadata.name must not be empty"@)
                    } else if v.spec.containers.len() == 0 {
                        e == ApiErrorView::BadRequest("spec.containers must not be empty"@)
                    } else if v.metadata.name != name {
                        e == ApiErrorView::BadRequest(
                            "name in body ("@ + v.metadata.name + ") does not match URL path ("@ + name
                                + ")"@,
                        )
                    } else if !r.pods.objects.contains_key(name) {
                        e == ApiErrorView::NotFound(name)
                    } else {
                        &&& v.metadata.resource_version != Some(version_of(old.metadata))
                        &&& e == ApiErrorView::Conflict {
                            current: version_of(old.metadata),
                            provided: match v.metadata.resource_version {
                                Some(rv) => rv,
                                None => "(missing)"@,
                            },
                        }
                    }
                },
            }
        }),
{
}

/// Law: a Pod is deleted if the version that is stored is named. It is then gone,
/// no other is, and watchers are told; the answer is the object as it was, in the
/// version of its deletion. Where it is refused nothing changes.
pub proof fn deleted_pods_are_gone(r: ReplicaView, name: Seq<char>, rv: Option<Seq<char>>)
    ensures
        ({
            let (after, answer) = handlers::performed(
                r,
                handlers::delete_planned::<Pod>(name, rv),
            );
            let old = r.pods.objects[name];
            match answer {
                Ok(o) => {
                    &&& r.pods.objects.contains_key(name)
                    &&& rv == Some(version_of(old.metadata))
                    &&& !after.pods.objects.contains_key(name)
                    &&& others_stay(r.pods.objects, after.pods.objects, name)
                    &&& o matches ObjectView::Pod(gone) && {
                        &&& gone == (PodView { metadata: gone.metadata, ..old })
                        &&& gone.metadata == (MetaView {
                            resource_version: gone.metadata.resource_version,
                            ..old.metadata
                        })
                        &&& bears_next_number(r, after, gone.metadata)
                        &&& after.pods.events == r.pods.events.push(
                            WatchEventView { event_type: WatchEventType::Deleted, object: gone },
                        )
                    }
                },
                Err(e) => after == r && match rv {
                    None => e == ApiErrorView::BadRequest(
                        "resourceVersion query param required"@,
                    ),
                    Some(provided) => if !r.pods.objects.contains_key(name) {
                        e == ApiErrorView::NotFound(name)
                    } else {
                        &&& provided != version_of(old.metadata)
                        &&& e == ApiErrorView::Conflict {
                            current: version_of(old.metadata),
                            provided,
                        }
                    },
                },
            }
        }),
{
}

/// Law: the status of a Pod is set if the version that is stored is named. Nothing
/// else of it changes but its version; watchers are told. Where it is refused
/// nothing changes.
pub proof fn statuses_of_pods_are_stored(
    r: ReplicaView,
    name: Seq<char>,
    rv: Option<Seq<char>>,
    status: PodStatusView,
)
    ensures
        ({
            let (after, answer) = handlers::performed(
                r,
                handlers::status_planned::<Pod>(name, rv, status),
            );
            let old = r.pods.objects[name];
            let now = after.pods.objects[name];
            match answer {
                Ok(o) => {
                    &&& r.pods.objects.contains_key(name)
                    &&& rv == Some(version_of(old.metadata))
                    &&& after.pods.objects.contains_key(name)
                    &&& o == ObjectView::Pod(now)
                    &&& now.status == Some(status)
                    &&& now == (PodView { metadata: now.metadata, status: Some(status), ..old })
                    &&& now.spec == old.spec
                    &&& now.metadata == (MetaView {
                        resource_version: now.metadata.resource_version,
                        ..old.metadata
                    })
                    &&& bears_next_number(r, after, now.metadata)
                    &&& others_stay(r.pods.objects, after.pods.objects, name)
                    &&& after.pods.events == r.pods.events.push(
                        WatchEventView { event_type: WatchEventType::Modified, object: now },
                    )
                },
                Err(e) => after == r && match rv {
                    None => e == ApiErrorView::BadRequest(
                        "resourceVersion query param required"@,
                    ),
                    Some(provided) => if !r.pods.objects.contains_key(name) {
                        e == ApiErrorView::NotFound(name)
                    } else {
                        &&& provided != version_of(old.metadata)
                        &&& e == ApiErrorView::Conflict {
                            current: version_of(old.metadata),
                            provided,
                        }
                    },
                },
            }
        }),
{
}

/// Law: a ReplicaSet is created if it is valid and its name is free. It is then stored
/// under its name as it was sent, without a status, with the identity, time and first
/// generation that the server gives it, in a new version; watchers are told. Where
/// it is refused nothing changes.
pub proof fn created_replicasets_are_stored(
    r: ReplicaView,
    v: ReplicaSetView,
    uid: Seq<char>,
    created: Seq<char>,
)
    ensures
        ({
            let (after, answer) = handlers::performed(
                r,
                handlers::create_planned::<ReplicaSet>(v, uid, created),
            );
            let name = v.metadata.name;
            let now = after.replicasets.objects[name];
            match answer {
                Ok(o) => {
                    &&& name.len() > 0 && !(v.spec.selector.match_labels == Map::<Seq<char>, Seq<char>>::empty())
                    &&& !r.replicasets.objects.contains_key(name)
                    &&& after.replicasets.objects.contains_key(name)
                    &&& o == ObjectView::ReplicaSet(now)
                    &&& now.spec == v.spec
                    &&& now.status is None
                    &&& now.api_version == v.api_version
                    &&& now.kind == v.kind
                    &&& now.metadata.name == name
                    &&& now.metadata.labels == v.metadata.labels
                    &&& now.metadata.owner_references == v.metadata.owner_references
                    &&& now.metadata.uid == Some(uid)
                    &&& now.metadata.creation_timestamp == Some(created)
                    &&& now.metadata.generation == Some(1u64)
                    &&& bears_next_number(r, after, now.metadata)
                    &&& others_stay(r.replicasets.objects, after.replicasets.objects, name)
                    &&& after.replicasets.events == r.replicasets.events.push(
                        WatchEventView { event_type: WatchEventType::Added, object: now },
                    )
                },
                Err(e) => after == r && {
                    if v.metadata.name.len() == 0 {
                        e == ApiErrorView::BadRequest("metadata.name must not be empty"@)
                    } else if v.spec.selector.match_labels == Map::<Seq<char>, Seq<char>>::empty() {
                        e == ApiErrorView::BadRequest("spec.selector.matchLabels must not be empty"@)
                    } else {
                        r.replicasets.objects.contains_key(name) && e == ApiErrorView::AlreadyExists(name)
                    }
                },
            }
        }),
{
}

/// Law: a ReplicaSet is replaced if what was sent is valid, bears the name it is sent to,
/// and names the version that is stored. It is then stored as it was sent, but for
/// what is the server's to say: identity and time of creation, and the status, stay, the
/// generation counts one up, and the version is new; watchers are told. Where it is
/// refused nothing changes.
pub proof fn replaced_replicasets_are_stored(r: ReplicaView, name: Seq<char>, v: ReplicaSetView)
    ensures
        ({
            let (after, answer) = handlers::performed(
                r,
                handlers::replace_planned::<ReplicaSet>(name, v),
            );
            let old = r.replicasets.objects[name];
            let now = after.replicasets.objects[name];
            match answer {
                Ok(o) => {
                    &&& v.metadata.name.len() > 0 && !(v.spec.selector.match_labels == Map::<Seq<char>, Seq<char>>::empty())
                    &&& v.metadata.name == name
                    &&& r.replicasets.objects.contains_key(name)
                    &&& v.metadata.resource_version == Some(version_of(old.metadata))
                    &&& after.replicasets.objects.contains_key(name)
                    &&& o == ObjectView::ReplicaSet(now)
                    &&& now.spec == v.spec
                    &&& now.status == old.status
                    &&& now.api_version == v.api_version
                    &&& now.kind == v.kind
                    &&& now.metadata.name == name
                    &&& now.metadata.labels == v.metadata.labels
                    &&& now.metadata.owner_references == v.metadata.owner_references
                    &&& now.metadata.uid == old.metadata.uid
                    &&& now.metadata.creation_timestamp == old.metadata.creation_timestamp
                    &&& now.metadata.generation matches Some(g) && g == generation_after(
                        old.metadata.generation,
                    )
                    &&& bears_next_number(r, after, now.metadata)
                    &&& others_stay(r.replicasets.objects, after.replicasets.objects, name)
                    &&& after.replicasets.events == r.replicasets.events.push(
                        WatchEventView { event_type: WatchEventType::Modified, object: now },
                    )
                },
                Err(e) => after == r && {
                    if v.metadata.name.len() == 0 {
                        e == ApiErrorView::BadRequest("metadata.name must not be empty"@)
                    } else if v.spec.selector.match_labels == Map::<Seq<char>, Seq<char>>::empty() {
                        e == ApiErrorView::BadRequest("spec.selector.matchLabels must not be empty"@)
                    } else if v.metadata.name != name {
                        e == ApiErrorView::BadRequest(
                            "name in body ("@ + v.metadata.name + ") does not match URL path ("@ + name
                                + ")"@,
                        )
                    } else if !r.replicasets.objects.contains_key(name) {
                        e == ApiErrorView::NotFound(name)
                    } else {
                        &&& v.metadata.resource_version != Some(version_of(old.metadata))
                        &&& e == ApiErrorView::Conflict {
                            current: version_of(old.metadata),
                            provided: match v.metadata.resource_version {
                                Some(rv) => rv,
                                None => "(missing)"@,
                            },
                        }
                    }
                },
            }
        }),
{
}

/// Law: a ReplicaSet is deleted if the version that is stored is named. It is then gone,
/// no other is, and watchers are told; the answer is the object as it was, in the
/// version of its deletion. Where it is refused nothing changes.
pub proof fn deleted_replicasets_are_gone(r: ReplicaView, name: Seq<char>, rv: Option<Seq<char>>)
    ensures
        ({
            let (after, answer) = handlers::performed(
                r,
                handlers::delete_planned::<ReplicaSet>(name, rv),
            );
            let old = r.replicasets.objects[name];
            match answer {
                Ok(o) => {
                    &&& r.replicasets.objects.contains_key(name)
                    &&& rv == Some(version_of(old.metadata))
                    &&& !after.replicasets.objects.contains_key(name)
                    &&& others_stay(r.replicasets.objects, after.replicasets.objects, name)
                    &&& o matches ObjectView::ReplicaSet(gone) && {
                        &&& gone == (ReplicaSetView { metadata: gone.metadata, ..old })
                        &&& gone.metadata == (MetaView {
                            resource_version: gone.metadata.resource_version,
                            ..old.metadata
                        })
                        &&& bears_next_number(r, after, gone.metadata)
                        &&& after.replicasets.events == r.replicasets.events.push(
                            WatchEventView { event_type: WatchEventType::Deleted, object: gone },
                        )
                    }
                },
                Err(e) => after == r && match rv {
                    None => e == ApiErrorView::BadRequest(
                        "resourceVersion query param required"@,
                    ),
                    Some(provided) => if !r.replicasets.objects.contains_key(name) {
                        e == ApiErrorView::NotFound(name)
                    } else {
                        &&& provided != version_of(old.metadata)
                        &&& e == ApiErrorView::Conflict {
                            current: version_of(old.metadata),
                            provided,
                        }
                    },
                },
            }
        }),
{
}

/// Law: the status of a ReplicaSet is set if the version that is stored is named. Nothing
/// else of it changes but its version; watchers are told. Where it is refused
/// nothing changes.
pub proof fn statuses_of_replicasets_are_stored(
    r: ReplicaView,
    name: Seq<char>,
    rv: Option<Seq<char>>,
    status: ReplicaSetStatus,
)
    ensures
        ({
            let (after, answer) = handlers::performed(
                r,
                handlers::status_planned::<ReplicaSet>(name, rv, status),
            );
            let old = r.replicasets.objects[name];
            let now = after.replicasets.objects[name];
            match answer {
                Ok(o) => {
                    &&& r.replicasets.objects.contains_key(name)
                    &&& rv == Some(version_of(old.metadata))
                    &&& after.replicasets.objects.contains_key(name)
                    &&& o == ObjectView::ReplicaSet(now)
                    &&& now.status == Some(status)
                    &&& now == (ReplicaSetView { metadata: now.metadata, status: Some(status), ..old })
                    &&& now.spec == old.spec
                    &&& now.metadata == (MetaView {
                        resource_version: now.metadata.resource_version,
                        ..old.metadata
                    })
                    &&& bears_next_number(r, after, now.metadata)
                    &&& others_stay(r.replicasets.objects, after.replicasets.objects, name)
                    &&& after.replicasets.events == r.replicasets.events.push(
                        WatchEventView { event_type: WatchEventType::Modified, object: now },
                    )
                },
                Err(e) => after == r && match rv {
                    None => e == ApiErrorView::BadRequest(
                        "resourceVersion query param required"@,
                    ),
                    Some(provided) => if !r.replicasets.objects.contains_key(name) {
                        e == ApiErrorView::NotFound(name)
                    } else {
                        &&& provided != version_of(old.metadata)
                        &&& e == ApiErrorView::Conflict {
                            current: version_of(old.metadata),
                            provided,
                        }
                    },
                },
            }
        }),
{
}

/// Law: a Node is created if it is valid and its name is free. It is then stored
/// under its name as it was sent, without a status, with the identity, time and first
/// generation that the server gives it, in a new version; watchers are told. Where
/// it is refused nothing changes.
pub proof fn created_nodes_are_stored(
    r: ReplicaView,
    v: NodeView,
    uid: Seq<char>,
    created: Seq<char>,
)
    ensures
        ({
            let (after, answer) = handlers::performed(
                r,
                handlers::create_planned::<Node>(v, uid, created),
            );
            let name = v.metadata.name;
            let now = after.nodes.objects[name];
            match answer {
                Ok(o) => {
                    &&& name.len() > 0
                    &&& !r.nodes.objects.contains_key(name)
                    &&& after.nodes.objects.contains_key(name)
                    &&& o == ObjectView::Node(now)
                    &&& now.spec == v.spec
                    &&& now.status is None
                    &&& now.api_version == v.api_version
                    &&& now.kind == v.kind
                    &&& now.metadata.name == name
                    &&& now.metadata.labels == v.metadata.labels
                    &&& now.metadata.owner_references == v.metadata.owner_references
                    &&& now.metadata.uid == Some(uid)
                    &&& now.metadata.creation_timestamp == Some(created)
                    &&& now.metadata.generation == Some(1u64)
                    &&& bears_next_number(r, after, now.metadata)
                    &&& others_stay(r.nodes.objects, after.nodes.objects, name)
                    &&& after.nodes.events == r.nodes.events.push(
                        WatchEventView { event_type: WatchEventType::Added, object: now },
                    )
                },
                Err(e) => after == r && {
                    if v.metadata.name.len() == 0 {
                        e == ApiErrorView::BadRequest("metadata.name must not be empty"@)
                    } else {
                        r.nodes.objects.contains_key(name) && e == ApiErrorView::AlreadyExists(name)
                    }
                },
            }
        }),
{
}

/// Law: a Node is replaced if what was sent is valid, bears the name it is sent to,
/// and names the version that is stored. It is then stored as it was sent, but for
/// what is the server's to say: identity and time of creation, and the status, stay, the
/// generation counts one up, and the version is new; watchers are told. Where it is
/// refused nothing changes.
pub proof fn replaced_nodes_are_stored(r: ReplicaView, name: Seq<char>, v: NodeView)
    ensures
        ({
            let (after, answer) = handlers::performed(
                r,
                handlers::replace_planned::<Node>(name, v),
            );
            let old = r.nodes.objects[name];
            let now = after.nodes.objects[name];
            match answer {
                Ok(o) => {
                    &&& v.metadata.name.len() > 0
                    &&& v.metadata.name == name
                    &&& r.nodes.objects.contains_key(name)
                    &&& v.metadata.resource_version == Some(version_of(old.metadata))
                    &&& after.nodes.objects.contains_key(name)
                    &&& o == ObjectView::Node(now)
                    &&& now.spec == v.spec
                    &&& now.status == old.status
                    &&& now.api_version == v.api_version
                    &&& now.kind == v.kind
                    &&& now.metadata.name == name
                    &&& now.metadata.labels == v.metadata.labels
                    &&& now.metadata.owner_references == v.metadata.owner_references
                    &&& now.metadata.uid == old.metadata.uid
                    &&& now.metadata.creation_timestamp == old.metadata.creation_timestamp
                    &&& now.metadata.generation matches Some(g) && g == generation_after(
                        old.metadata.generation,
                    )
                    &&& bears_next_number(r, after, now.metadata)
                    &&& others_stay(r.nodes.objects, after.nodes.objects, name)
                    &&& after.nodes.events == r.nodes.events.push(
                        WatchEventView { event_type: WatchEventType::Modified, object: now },
                    )
                },
                Err(e) => after == r && {
                    if v.metadata.name.len() == 0 {
                        e == ApiErrorView::BadRequest("metadata.name must not be empty"@)
                    } else if v.metadata.name != name {
                        e == ApiErrorView::BadRequest(
                            "name in body ("@ + v.metadata.name + ") does not match URL path ("@ + name
                                + ")"@,
                        )
                    } else if !r.nodes.objects.contains_key(name) {
                        e == ApiErrorView::NotFound(name)
                    } else {
                        &&& v.metadata.resource_version != Some(version_of(old.metadata))
                        &&& e == ApiErrorView::Conflict {
                            current: version_of(old.metadata),
                            provided: match v.metadata.resource_version {
                                Some(rv) => rv,
                                None => "(missing)"@,
                            },
                        }
                    }
                },
            }
        }),
{
}

/// Law: a Node is deleted if the version that is stored is named. It is then gone,
/// no other is, and watchers are told; the answer is the object as it was, in the
/// version of its deletion. Where it is refused nothing changes.
pub proof fn deleted_nodes_are_gone(r: ReplicaView, name: Seq<char>, rv: Option<Seq<char>>)
    ensures
        ({
            let (after, answer) = handlers::performed(
                r,
                handlers::delete_planned::<Node>(name, rv),
            );
            let old = r.nodes.objects[name];
            match answer {
                Ok(o) => {
                    &&& r.nodes.objects.contains_key(name)
                    &&& rv == Some(version_of(old.metadata))
                    &&& !after.nodes.objects.contains_key(name)
                    &&& others_stay(r.nodes.objects, after.nodes.objects, name)
                    &&& o matches ObjectView::Node(gone) && {
                        &&& gone == (NodeView { metadata: gone.metadata, ..old })
                        &&& gone.metadata == (MetaView {
                            resource_version: gone.metadata.resource_version,
                            ..old.metadata
                        })
                        &&& bears_next_number(r, after, gone.metadata)
                        &&& after.nodes.events == r.nodes.events.push(
                            WatchEventView { event_type: WatchEventType::Deleted, object: gone },
                        )
                    }
                },
                Err(e) => after == r && match rv {
                    None => e == ApiErrorView::BadRequest(
                        "resourceVersion query param required"@,
                    ),
                    Some(provided) => if !r.nodes.objects.contains_key(name) {
                        e == ApiErrorView::NotFound(name)
                    } else {
                        &&& provided != version_of(old.metadata)
                        &&& e == ApiErrorView::Conflict {
                            current: version_of(old.metadata),
                            provided,
                        }
                    },
                },
            }
        }),
{
}

/// Law: the status of a Node is set if the version that is stored is named. Nothing
/// else of it changes but its version; watchers are told. Where it is refused
/// nothing changes.
pub proof fn statuses_of_nodes_are_stored(
    r: ReplicaView,
    name: Seq<char>,
    rv: Option<Seq<char>>,
    status: NodeStatusView,
)
    ensures
        ({
            let (after, answer) = handlers::performed(
                r,
                handlers::status_planned::<Node>(name, rv, status),
            );
            let old = r.nodes.objects[name];
            let now = after.nodes.objects[name];
            match answer {
                Ok(o) => {
                    &&& r.nodes.objects.contains_key(name)
                    &&& rv == Some(version_of(old.metadata))
                    &&& after.nodes.objects.contains_key(name)
                    &&& o == ObjectView::Node(now)
                    &&& now.status == Some(status)
                    &&& now == (NodeView { metadata: now.metadata, status: Some(status), ..old })
                    &&& now.spec == old.spec
                    &&& now.metadata == (MetaView {
                        resource_version: now.metadata.resource_version,
                        ..old.metadata
                    })
                    &&& bears_next_number(r, after, now.metadata)
                    &&& others_stay(r.nodes.objects, after.nodes.objects, name)
                    &&& after.nodes.events == r.nodes.events.push(
                        WatchEventView { event_type: WatchEventType::Modified, object: now },
                    )
                },
                Err(e) => after == r && match rv {
                    None => e == ApiErrorView::BadRequest(
                        "resourceVersion query param required"@,
                    ),
                    Some(provided) => if !r.nodes.objects.contains_key(name) {
                        e == ApiErrorView::NotFound(name)
                    } else {
                        &&& provided != version_of(old.metadata)
                        &&& e == ApiErrorView::Conflict {
                            current: version_of(old.metadata),
                            provided,
                        }
                    },
                },
            }
        }),
{
}

/// Law: a Service is created if it is valid and its name is free. It is then stored
/// under its name as it was sent, with the identity, time and first
/// generation that the server gives it, in a new version; watchers are told. Where
/// it is refused nothing changes.
pub proof fn created_services_are_stored(
    r: ReplicaView,
    v: ServiceView,
    uid: Seq<char>,
    created: Seq<char>,
)
    ensures
        ({
            let (after, answer) = handlers::performed(
                r,
                handlers::create_planned::<Service>(v, uid, created),
            );
            let name = v.metadata.name;
            let now = after.services.objects[name];
            match answer {
                Ok(o) => {
                    &&& name.len() > 0
                    &&& !r.services.objects.contains_key(name)
                    &&& after.services.objects.contains_key(name)
                    &&& o == ObjectView::Service(now)
                    &&& now.spec == v.spec
                    &&& now.api_version == v.api_version
                    &&& now.kind == v.kind
                    &&& now.metadata.name == name
                    &&& now.metadata.labels == v.metadata.labels
                    &&& now.metadata.owner_references == v.metadata.owner_references
                    &&& now.metadata.uid == Some(uid)
                    &&& now.metadata.creation_timestamp == Some(created)
                    &&& now.metadata.generation == Some(1u64)
                    &&& bears_next_number(r, after, now.metadata)
                    &&& others_stay(r.services.objects, after.services.objects, name)
                    &&& after.services.events == r.services.events.push(
                        WatchEventView { event_type: WatchEventType::Added, object: now },
                    )
                },
                Err(e) => after == r && {
                    if v.metadata.name.len() == 0 {
                        e == ApiErrorView::BadRequest("metadata.name must not be empty"@)
                    } else {
                        r.services.objects.contains_key(name) && e == ApiErrorView::AlreadyExists(name)
                    }
                },
            }
        }),
{
}

/// Law: a Service is replaced if what was sent is valid, bears the name it is sent to,
/// and names the version that is stored. It is then stored as it was sent, but for
/// what is the server's to say: identity and time of creation stay, the
/// generation counts one up, and the version is new; watchers are told. Where it is
/// refused nothing changes.
pub proof fn replaced_services_are_stored(r: ReplicaView, name: Seq<char>, v: ServiceView)
    ensures
        ({
            let (after, answer) = handlers::performed(
                r,
                handlers::replace_planned::<Service>(name, v),
            );
            let old = r.services.objects[name];
            let now = after.services.objects[name];
            match answer {
                Ok(o) => {
                    &&& v.metadata.name.len() > 0
                    &&& v.metadata.name == name
                    &&& r.services.objects.contains_key(name)
                    &&& v.metadata.resource_version == Some(version_of(old.metadata))
                    &&& after.services.objects.contains_key(name)
                    &&& o == ObjectView::Service(now)
                    &&& now.spec == v.spec
                    &&& now.api_version == v.api_version
                    &&& now.kind == v.kind
                    &&& now.metadata.name == name
                    &&& now.metadata.labels == v.metadata.labels
                    &&& now.metadata.owner_references == v.metadata.owner_references
                    &&& now.metadata.uid == old.metadata.uid
                    &&& now.metadata.creation_timestamp == old.metadata.creation_timestamp
                    &&& now.metadata.generation matches Some(g) && g == generation_after(
                        old.metadata.generation,
                    )
                    &&& bears_next_number(r, after, now.metadata)
                    &&& others_stay(r.services.objects, after.services.objects, name)
                    &&& after.services.events == r.services.events.push(
                        WatchEventView { event_type: WatchEventType::Modified, object: now },
                    )
                },
                Err(e) => after == r && {
                    if v.metadata.name.len() == 0 {
                        e == ApiErrorView::BadRequest("metadata.name must not be empty"@)
                    } else if v.metadata.name != name {
                        e == ApiErrorView::BadRequest(
                            "name in body ("@ + v.metadata.name + ") does not match URL path ("@ + name
                                + ")"@,
                        )
                    } else if !r.services.objects.contains_key(name) {
                        e == ApiErrorView::NotFound(name)
                    } else {
                        &&& v.metadata.resource_version != Some(version_of(old.metadata))
                        &&& e == ApiErrorView::Conflict {
                            current: version_of(old.metadata),
                            provided: match v.metadata.resource_version {
                                Some(rv) => rv,
                                None => "(missing)"@,
                            },
                        }
                    }
                },
            }
        }),
{
}

/// Law: a Service is deleted if the version that is stored is named. It is then gone,
/// no other is, and watchers are told; the answer is the object as it was, in the
/// version of its deletion. Where it is refused nothing changes.
pub proof fn deleted_services_are_gone(r: ReplicaView, name: Seq<char>, rv: Option<Seq<char>>)
    ensures
        ({
            let (after, answer) = handlers::performed(
                r,
                handlers::delete_planned::<Service>(name, rv),
            );
            let old = r.services.objects[name];
            match answer {
                Ok(o) => {
                    &&& r.services.objects.contains_key(name)
                    &&& rv == Some(version_of(old.metadata))
                    &&& !after.services.objects.contains_key(name)
                    &&& others_stay(r.services.objects, after.services.objects, name)
                    &&& o matches ObjectView::Service(gone) && {
                        &&& gone == (ServiceView { metadata: gone.metadata, ..old })
                        &&& gone.metadata == (MetaView {
                            resource_version: gone.metadata.resource_version,
                            ..old.metadata
                        })
                        &&& bears_next_number(r, after, gone.metadata)
                        &&& after.services.events == r.services.events.push(
                            WatchEventView { event_type: WatchEventType::Deleted, object: gone },
                        )
                    }
                },
                Err(e) => after == r && match rv {
                    None => e == ApiErrorView::BadRequest(
                        "resourceVersion query param required"@,
                    ),
                    Some(provided) => if !r.services.objects.contains_key(name) {
                        e == ApiErrorView::NotFound(name)
                    } else {
                        &&& provided != version_of(old.metadata)
                        &&& e == ApiErrorView::Conflict {
                            current: version_of(old.metadata),
                            provided,
                        }
                    },
                },
            }
        }),
{
}

/// Law: a Endpoints is created if it is valid and its name is free. It is then stored
/// under its name as it was sent, with the identity, time and first
/// generation that the server gives it, in a new version; watchers are told. Where
/// it is refused nothing changes.
pub proof fn created_endpoints_are_stored(
    r: ReplicaView,
    v: EndpointsView,
    uid: Seq<char>,
    created: Seq<char>,
)
    ensures
        ({
            let (after, answer) = handlers::performed(
                r,
                handlers::create_planned::<Endpoints>(v, uid, created),
            );
            let name = v.metadata.name;
            let now = after.endpoints.objects[name];
            match answer {
                Ok(o) => {
                    &&& name.len() > 0
                    &&& !r.endpoints.objects.contains_key(name)
                    &&& after.endpoints.objects.contains_key(name)
                    &&& o == ObjectView::Endpoints(now)
                    &&& now.addresses == v.addresses
                    &&& now.api_version == v.api_version
                    &&& now.kind == v.kind
                    &&& now.metadata.name == name
                    &&& now.metadata.labels == v.metadata.labels
                    &&& now.metadata.owner_references == v.metadata.owner_references
                    &&& now.metadata.uid == Some(uid)
                    &&& now.metadata.creation_timestamp == Some(created)
                    &&& now.metadata.generation == Some(1u64)
                    &&& bears_next_number(r, after, now.metadata)
                    &&& others_stay(r.endpoints.objects, after.endpoints.objects, name)
                    &&& after.endpoints.events == r.endpoints.events.push(
                        WatchEventView { event_type: WatchEventType::Added, object: now },
                    )
                },
                Err(e) => after == r && {
                    if v.metadata.name.len() == 0 {
                        e == ApiErrorView::BadRequest("metadata.name must not be empty"@)
                    } else {
                        r.endpoints.objects.contains_key(name) && e == ApiErrorView::AlreadyExists(name)
                    }
                },
            }
        }),
{
}

/// Law: a Endpoints is replaced if what was sent is valid, bears the name it is sent to,
/// and names the version that is stored. It is then stored as it was sent, but for
/// what is the server's to say: identity and time of creation stay, the
/// generation counts one up, and the version is new; watchers are told. Where it is
/// refused nothing changes.
pub proof fn replaced_endpoints_are_stored(r: ReplicaView, name: Seq<char>, v: EndpointsView)
    ensures
        ({
            let (after, answer) = handlers::performed(
                r,
                handlers::replace_planned::<Endpoints>(name, v),
            );
            let old = r.endpoints.objects[name];
            let now = after.endpoints.objects[name];
            match answer {
                Ok(o) => {
                    &&& v.metadata.name.len() > 0
                    &&& v.metadata.name == name
                    &&& r.endpoints.objects.contains_key(name)
                    &&& v.metadata.resource_version == Some(version_of(old.metadata))
                    &&& after.endpoints.objects.contains_key(name)
                    &&& o == ObjectView::Endpoints(now)
                    &&& now.addresses == v.addresses
                    &&& now.api_version == v.api_version
                    &&& now.kind == v.kind
                    &&& now.metadata.name == name
                    &&& now.metadata.labels == v.metadata.labels
                    &&& now.metadata.owner_references == v.metadata.owner_references
                    &&& now.metadata.uid == old.metadata.uid
                    &&& now.metadata.creation_timestamp == old.metadata.creation_timestamp
                    &&& now.metadata.generation matches Some(g) && g == generation_after(
                        old.metadata.generation,
                    )
                    &&& bears_next_number(r, after, now.metadata)
                    &&& others_stay(r.endpoints.objects, after.endpoints.objects, name)
                    &&& after.endpoints.events == r.endpoints.events.push(
                        WatchEventView { event_type: WatchEventType::Modified, object: now },
                    )
                },
                Err(e) => after == r && {
                    if v.metadata.name.len() == 0 {
                        e == ApiErrorView::BadRequest("metadata.name must not be empty"@)
                    } else if v.metadata.name != name {
                        e == ApiErrorView::BadRequest(
                            "name in body ("@ + v.metadata.name + ") does not match URL path ("@ + name
                                + ")"@,
                        )
                    } else if !r.endpoints.objects.contains_key(name) {
                        e == ApiErrorView::NotFound(name)
                    } else {
                        &&& v.metadata.resource_version != Some(version_of(old.metadata))
                        &&& e == ApiErrorView::Conflict {
                            current: version_of(old.metadata),
                            provided: match v.metadata.resource_version {
                                Some(rv) => rv,
                                None => "(missing)"@,
                            },
                        }
                    }
                },
            }
        }),
{
}

/// Law: a Endpoints is deleted if the version that is stored is named. It is then gone,
/// no other is, and watchers are told; the answer is the object as it was, in the
/// version of its deletion. Where it is refused nothing changes.
pub proof fn deleted_endpoints_are_gone(r: ReplicaView, name: Seq<char>, rv: Option<Seq<char>>)
    ensures
        ({
            let (after, answer) = handlers::performed(
                r,
                handlers::delete_planned::<Endpoints>(name, rv),
            );
            let old = r.endpoints.objects[name];
            match answer {
                Ok(o) => {
                    &&& r.endpoints.objects.contains_key(name)
                    &&& rv == Some(version_of(old.metadata))
                    &&& !after.endpoints.objects.contains_key(name)
                    &&& others_stay(r.endpoints.objects, after.endpoints.objects, name)
                    &&& o matches ObjectView::Endpoints(gone) && {
                        &&& gone == (EndpointsView { metadata: gone.metadata, ..old })
                        &&& gone.metadata == (MetaView {
                            resource_version: gone.metadata.resource_version,
                            ..old.metadata
                        })
                        &&& bears_next_number(r, after, gone.metadata)
                        &&& after.endpoints.events == r.endpoints.events.push(
                            WatchEventView { event_type: WatchEventType::Deleted, object: gone },
                        )
                    }
                },
                Err(e) => after == r && match rv {
                    None => e == ApiErrorView::BadRequest(
                        "resourceVersion query param required"@,
                    ),
                    Some(provided) => if !r.endpoints.objects.contains_key(name) {
                        e == ApiErrorView::NotFound(name)
                    } else {
                        &&& provided != version_of(old.metadata)
                        &&& e == ApiErrorView::Conflict {
                            current: version_of(old.metadata),
                            provided,
                        }
                    },
                },
            }
        }),
{
}

/// Law: taking over a status changes nothing but the status, clearing it neither, and
/// new metadata leave all else as it is.
pub proof fn statuses_are_set_alone(
    p: PodView,
    p2: PodView,
    s: ReplicaSetView,
    s2: ReplicaSetView,
    n: NodeView,
    n2: NodeView,
    v: ServiceView,
    v2: ServiceView,
    e: EndpointsView,
    e2: EndpointsView,
    m: MetaView,
)
    ensures
        <Pod as ResourceMeta>::with_status_of(p, p2) == (PodView { status: p2.status, ..p }),
        <Pod as ResourceMeta>::without_status(p) == (PodView { status: None, ..p }),
        <Pod as ResourceMeta>::with_meta(p, m) == (PodView { metadata: m, ..p }),
        <ReplicaSet as ResourceMeta>::with_status_of(s, s2) == (ReplicaSetView {
            status: s2.status,
            ..s
        }),
        <ReplicaSet as ResourceMeta>::without_status(s) == (ReplicaSetView { status: None, ..s }),
        <ReplicaSet as ResourceMeta>::with_meta(s, m) == (ReplicaSetView { metadata: m, ..s }),
        <Node as ResourceMeta>::with_status_of(n, n2) == (NodeView { status: n2.status, ..n }),
        <Node as ResourceMeta>::without_status(n) == (NodeView { status: None, ..n }),
        <Node as ResourceMeta>::with_meta(n, m) == (NodeView { metadata: m, ..n }),
        <Service as ResourceMeta>::with_status_of(v, v2) == v,
        <Service as ResourceMeta>::without_status(v) == v,
        <Service as ResourceMeta>::with_meta(v, m) == (ServiceView { metadata: m, ..v }),
        <Endpoints as ResourceMeta>::with_status_of(e, e2) == e,
        <Endpoints as ResourceMeta>::without_status(e) == e,
        <Endpoints as ResourceMeta>::with_meta(e, m) == (EndpointsView { metadata: m, ..e }),
{
}

/// Law: a binding sets the node of a Pod that is stored, and nothing else of what a
/// client may say; it needs no version. Where no node is named or no Pod is stored
/// nothing changes.
pub proof fn bindings_set_the_node(r: ReplicaView, name: Seq<char>, node: Seq<char>)
    requires
        r.pods.objects.contains_key(name) ==> r.pods.objects[name].metadata.resource_version is Some,
    ensures
        ({
            let (after, answer) = handlers::performed(r, handlers::bind_planned(r, name, node));
            let old = r.pods.objects[name];
            let now = after.pods.objects[name];
            match answer {
                Ok(o) => {
                    &&& node.len() > 0
                    &&& r.pods.objects.contains_key(name)
                    &&& after.pods.objects.contains_key(name)
                    &&& o == ObjectView::Pod(now)
                    &&& now.spec.node_name == Some(node)
                    &&& now == (PodView {
                        metadata: now.metadata,
                        spec: PodSpecView { node_name: Some(node), ..old.spec },
                        ..old
                    })
                    &&& now.metadata == (MetaView {
                        resource_version: now.metadata.resource_version,
                        generation: now.metadata.generation,
                        ..old.metadata
                    })
                    &&& now.metadata.generation matches Some(g) && g == generation_after(
                        old.metadata.generation,
                    )
                    &&& bears_next_number(r, after, now.metadata)
                    &&& others_stay(r.pods.objects, after.pods.objects, name)
                    &&& after.pods.events == r.pods.events.push(
                        WatchEventView { event_type: WatchEventType::Modified, object: now },
                    )
                },
                Err(e) => after == r && if node.len() == 0 {
                    e == ApiErrorView::BadRequest("binding.node_name must not be empty"@)
                } else {
                    !r.pods.objects.contains_key(name) && e == ApiErrorView::NotFound(name)
                },
            }
        }),
{
}

/// Law: a listing holds every stored object, each once, in the order of their names;
/// the names are handed back. A read finds what is stored under a name, and nothing
/// else.
pub proof fn listings_hold_everything<V>(
    objects: Map<Seq<char>, V>,
    events: Seq<WatchEventView<V>>,
    name: Seq<char>,
) -> (keys: Seq<Seq<char>>)
    requires
        objects.dom().finite(),
    ensures
        ({
            let all = storage::values_in_name_order(objects);
            &&& keys.len() == all.len()
            &&& forall|i: int|
                0 <= i < all.len() ==> objects.contains_key(#[trigger] keys[i]) && objects[keys[i]]
                    == all[i]
            &&& forall|i: int, j: int|
                0 <= i < j < keys.len() ==> text::text_before(
                    #[trigger] keys[i],
                    #[trigger] keys[j],
                )
            &&& forall|n: Seq<char>| #[trigger] objects.contains_key(n) ==> keys.contains(n)
        }),
        handlers::read(storage::StoreView { objects, events }, name) == if objects.contains_key(
            name,
        ) {
            Ok(objects[name])
        } else {
            Err::<V, ApiErrorView>(ApiErrorView::NotFound(name))
        },
{
    names::maps_have_a_form(objects);
    let pairs = storage::in_name_order(objects);
    assert(names::in_key_order(pairs) && names::as_map(pairs) == objects);
    names::as_map_holds_pairs(pairs);
    let keys = Seq::new(pairs.len(), |i: int| pairs[i].0);
    let all = storage::values_in_name_order(objects);
    assert forall|i: int| 0 <= i < all.len() implies objects.contains_key(#[trigger] keys[i])
        && objects[keys[i]] == all[i] by {
        assert(pairs[i].0 == keys[i]);
        assert(names::has_key(pairs, keys[i]));
    }
    assert forall|i: int, j: int| 0 <= i < j < keys.len() implies text::text_before(
        #[trigger] keys[i],
        #[trigger] keys[j],
    ) by {
        assert(text::text_before(pairs[i].0, pairs[j].0));
    }
    assert forall|n: Seq<char>| #[trigger] objects.contains_key(n) implies keys.contains(n) by {
        assert(names::has_key(pairs, n));
        let i = choose|i: int| 0 <= i < pairs.len() && (#[trigger] pairs[i]).0 == n;
        assert(keys[i] == n);
    }
    keys
}

/// Law: a listing by node holds just those of all Pods that are bound to the node,
/// in the same order; without a node it holds all.
pub proof fn listings_by_node_hold_its_pods(r: ReplicaView, node: Seq<char>)
    ensures
        handlers::pods_on(r, Some(node)) == storage::values_in_name_order(r.pods.objects).filter(
            |p: PodView| p.spec.node_name == Some(node),
        ),
        handlers::pods_on(r, None) == storage::values_in_name_order(r.pods.objects),
{
    let all = storage::values_in_name_order(r.pods.objects);
    let on = |p: PodView| watch::on_node(p, Some(node));
    assert(on =~= (|p: PodView| p.spec.node_name == Some(node)));
    everything_passes(all, |p: PodView| watch::on_node(p, None));
}

proof fn everything_passes<V>(s: Seq<V>, pick: spec_fn(V) -> bool)
    requires
        forall|v: V| #[trigger] pick(v),
    ensures
        s.filter(pick) == s,
    decreases s.len(),
{
    reveal(Seq::filter);
    if s.len() > 0 {
        everything_passes(s.drop_last(), pick);
        assert(pick(s.last()));
        assert(s =~= s.drop_last().push(s.last()));
    } else {
        assert(s.filter(pick) =~= s);
    }
}

/// Law: a node that registers without a slice is given the next one of the pod
/// range, as long as there are any; one that brings a slice keeps it. All else is
/// stored as it was sent. One that is registered already is refused and uses up
/// nothing.
pub proof fn registered_nodes_have_a_slice(
    r: ReplicaView,
    v: NodeView,
    uid: Seq<char>,
    created: Seq<char>,
)
    ensures
        ({
            let (drawn, planned) = handlers::node_planned(r, v, uid, created);
            let (after, answer) = handlers::performed(drawn, planned);
            let name = v.metadata.name;
            let now = after.nodes.objects[name];
            let drawn_so_far = if r.db.contains_key("node_cidr_counter"@) {
                r.db["node_cidr_counter"@] as nat
            } else {
                0
            };
            let draws = name.len() > 0 && v.spec.pod_cidr is None
                && !r.nodes.objects.contains_key(name);
            &&& match answer {
                Ok(o) => {
                    &&& name.len() > 0
                    &&& !r.nodes.objects.contains_key(name)
                    &&& after.nodes.objects.contains_key(name)
                    &&& o == ObjectView::Node(now)
                    &&& now.spec.unschedulable == v.spec.unschedulable
                    &&& now.status is None
                    &&& now.metadata.labels == v.metadata.labels
                    &&& now.metadata.name == name
                    &&& match v.spec.pod_cidr {
                        Some(slice) => now.spec.pod_cidr == Some(slice),
                        None => drawn_so_far <= 255 && now.spec.pod_cidr == Some(
                            "10.244."@ + text::decimal_chars(drawn_so_far) + ".0/24"@,
                        ),
                    }
                    &&& others_stay(r.nodes.objects, after.nodes.objects, name)
                },
                Err(e) => after.nodes == r.nodes && if name.len() == 0 {
                    e == ApiErrorView::BadRequest("metadata.name must not be empty"@)
                } else if r.nodes.objects.contains_key(name) {
                    e == ApiErrorView::AlreadyExists(name)
                } else {
                    v.spec.pod_cidr is None && drawn_so_far > 255 && e is Internal
                },
            }
            &&& storage::counter(after.db, "node_cidr_counter"@) == if draws && drawn_so_far
                < u64::MAX {
                drawn_so_far + 1
            } else {
                drawn_so_far
            }
        }),
{
    reveal_strlit("node_cidr_counter");
    reveal_strlit("rv_counter");
    assert("node_cidr_counter"@[0] == 'n');
    assert("rv_counter"@[0] == 'r');
}

/// Law: a service that is created without an address is given the next one of the
/// service range, as long as there are any; one that brings an address keeps it. All
/// else is stored as it was sent.
pub proof fn created_services_have_an_address(
    r: ReplicaView,
    v: ServiceView,
    uid: Seq<char>,
    created: Seq<char>,
)
    ensures
        ({
            let (drawn, planned) = services::service_planned(r, v, uid, created);
            let (after, answer) = handlers::performed(drawn, planned);
            let name = v.metadata.name;
            let now = after.services.objects[name];
            let drawn_so_far = if r.db.contains_key("service_ip_counter"@) {
                r.db["service_ip_counter"@] as int
            } else {
                0
            };
            let host = drawn_so_far + 1;
            let draws = name.len() > 0 && v.spec.cluster_ip is None
                && !r.services.objects.contains_key(name);
            &&& match answer {
                Ok(o) => {
                    &&& name.len() > 0
                    &&& !r.services.objects.contains_key(name)
                    &&& after.services.objects.contains_key(name)
                    &&& o == ObjectView::Service(now)
                    &&& now.spec.selector == v.spec.selector
                    &&& now.spec.port == v.spec.port
                    &&& now.spec.target_port == v.spec.target_port
                    &&& now.metadata.labels == v.metadata.labels
                    &&& now.metadata.name == name
                    &&& match v.spec.cluster_ip {
                        Some(ip) => now.spec.cluster_ip == Some(ip),
                        None => host <= 65534 && now.spec.cluster_ip == Some(
                            "10.96."@ + text::decimal_chars((host / 256) as nat) + "."@
                                + text::decimal_chars((host % 256) as nat),
                        ),
                    }
                    &&& others_stay(r.services.objects, after.services.objects, name)
                },
                Err(e) => after.services == r.services && if name.len() == 0 {
                    e == ApiErrorView::BadRequest("metadata.name must not be empty"@)
                } else if r.services.objects.contains_key(name) {
                    e == ApiErrorView::AlreadyExists(name)
                } else {
                    v.spec.cluster_ip is None && host > 65534 && e is Internal
                },
            }
            &&& storage::counter(after.db, "service_ip_counter"@) == if draws && drawn_so_far
                < u64::MAX {
                drawn_so_far + 1
            } else {
                drawn_so_far
            }
        }),
{
    reveal_strlit("service_ip_counter");
    reveal_strlit("rv_counter");
    assert("service_ip_counter"@[0] == 's');
    assert("rv_counter"@[0] == 'r');
}

/// Law: a service that is replaced keeps the address it has, whatever was sent, and
/// is stored as it was sent in all else.
pub proof fn replaced_services_keep_their_address(
    r: ReplicaView,
    name: Seq<char>,
    v: ServiceView,
)
    ensures
        ({
            let (after, answer) = handlers::performed(
                r,
                handlers::replace_planned::<Service>(
                    name,
                    services::with_kept_address(r, name, v),
                ),
            );
            let old = r.services.objects[name];
            let now = after.services.objects[name];
            &&& answer is Ok <==> name.len() > 0 && v.metadata.name == name
                && r.services.objects.contains_key(name) && v.metadata.resource_version == Some(
                version_of(old.metadata),
            )
            &&& answer is Ok ==> {
                &&& now.spec.selector == v.spec.selector
                &&& now.spec.port == v.spec.port
                &&& now.spec.target_port == v.spec.target_port
                &&& now.spec.cluster_ip == if old.spec.cluster_ip is Some {
                    old.spec.cluster_ip
                } else {
                    v.spec.cluster_ip
                }
                &&& now.metadata.labels == v.metadata.labels
                &&& now.metadata.uid == old.metadata.uid
                &&& answer->Ok_0 == ObjectView::Service(now)
            }
            &&& answer is Err ==> after == r
        }),
{
}

proof fn decimals_are_digits(n: nat)
    ensures
        decimal_is_digits(text::decimal_chars(n)),
{
    let s = text::decimal_chars(n);
    assert forall|i: int| 0 <= i < s.len() implies '0' <= #[trigger] s[i] <= '9' by {
        text::decimal_digits_have_places(n, i);
    }
}

spec fn decimal_is_digits(s: Seq<char>) -> bool {
    forall|i: int| 0 <= i < s.len() ==> '0' <= #[trigger] s[i] <= '9'
}

proof fn service_addresses_differ(a: u64, b: u64)
    requires
        services::service_ip_chars(a) == services::service_ip_chars(b),
    ensures
        a == b,
{
    let head = "10.96."@;
    let dot = "."@;
    reveal_strlit(".");
    let (x, y) = (text::decimal_chars((a / 256) as nat), text::decimal_chars((b / 256) as nat));
    let (z, w) = (text::decimal_chars((a % 256) as nat), text::decimal_chars((b % 256) as nat));
    let s = services::service_ip_chars(a);
    let t = services::service_ip_chars(b);
    let h = head.len() as int;
    decimals_are_digits((a / 256) as nat);
    decimals_are_digits((b / 256) as nat);
    assert(s =~= head + x + dot + z);
    assert(t =~= head + y + dot + w);
    assert(s[h + x.len()] == '.');
    assert(t[h + y.len()] == '.');
    if x.len() < y.len() {
        assert(t[h + x.len()] == y[x.len() as int]);
    }
    if y.len() < x.len() {
        assert(s[h + y.len()] == x[y.len() as int]);
    }
    assert(x =~= s.subrange(h, h + x.len()));
    assert(y =~= t.subrange(h, h + y.len()));
    assert(z =~= s.skip(h + x.len() + 1));
    assert(w =~= t.skip(h + y.len() + 1));
    text::decimal_parses_back((a / 256) as u64);
    text::decimal_parses_back((b / 256) as u64);
    text::decimal_parses_back((a % 256) as u64);
    text::decimal_parses_back((b % 256) as u64);
}

proof fn addresses_count_up(state: ReplicaView, happenings: Seq<handlers::Happening>)
    ensures
        storage::counter(state.db, "service_ip_counter"@) <= storage::counter(
            handlers::moved_on(state, happenings).db,
            "service_ip_counter"@,
        ),
    decreases happenings.len(),
{
    if happenings.len() > 0 {
        let before = handlers::moved_on(state, happenings.drop_last());
        addresses_count_up(state, happenings.drop_last());
        reveal_strlit("node_cidr_counter");
        reveal_strlit("rv_counter");
        reveal_strlit("service_ip_counter");
        assert("node_cidr_counter"@[0] == 'n');
        assert("rv_counter"@[0] == 'r');
        assert("service_ip_counter"@[0] == 's');
        if let handlers::Happening::Command(op) = happenings.last() {
            applier::commands_keep_other_counters(
                before,
                op,
                "service_ip_counter"@,
            );
        }
    }
}

/// Law: no two services are given the same address, whatever is written, registered
/// and exposed in between.
pub proof fn service_addresses_are_not_shared(
    state: ReplicaView,
    a: ServiceView,
    between: Seq<handlers::Happening>,
    b: ServiceView,
)
    requires
        a.spec.cluster_ip is None,
        b.spec.cluster_ip is None,
        !state.services.objects.contains_key(a.metadata.name),
        !handlers::moved_on(
            handlers::moved(state, handlers::Happening::Exposure(a)),
            between,
        ).services.objects.contains_key(b.metadata.name),
    ensures
        ({
            let later = handlers::moved_on(
                handlers::moved(state, handlers::Happening::Exposure(a)),
                between,
            );
            services::with_address(state, a).1 matches Ok(first) ==> services::with_address(
                later,
                b,
            ).1 matches Ok(second) ==> first.spec.cluster_ip != second.spec.cluster_ip
        }),
{
    let once = handlers::moved(state, handlers::Happening::Exposure(a));
    let later = handlers::moved_on(once, between);
    addresses_count_up(once, between);
    let i = storage::next_number(storage::counter(state.db, "service_ip_counter"@));
    let j = storage::next_number(storage::counter(later.db, "service_ip_counter"@));
    if i <= 65534 && j <= 65534 && services::service_ip_chars(i) == services::service_ip_chars(j) {
        service_addresses_differ(i, j);
    }
}


/// Law: each kind of object is kept under a word of its own.
pub proof fn kinds_are_kept_apart()
    ensures
        <Pod as ResourceMeta>::prefix() == "pods/"@,
        <ReplicaSet as ResourceMeta>::prefix() == "replicasets/"@,
        <Node as ResourceMeta>::prefix() == "nodes/"@,
        <Service as ResourceMeta>::prefix() == "services/"@,
        <Endpoints as ResourceMeta>::prefix() == "endpoints/"@,
{
}

} // verus!
