//! What a client gets to see: the answers to reads and writes, and where a
//! request is sent instead.

use std::collections::HashMap;

use vstd::arithmetic::power::pow;
use vstd::prelude::*;

use crate::apiserver::command::{ApplyOutcome, Object};
use crate::apiserver::handlers::{
    get_node, get_pod, get_replicaset, list_or_watch_nodes, list_or_watch_pods,
    list_or_watch_replicasets, outcome_to_result, parse_node_name_selector, parse_rv, ApiError,
    AppState, ListOrWatch, ListWatchParams, NodeList, PodList, ReplicaSetList, Status,
};
use crate::apiserver::laws;
use crate::apiserver::raft_glue;
use crate::apiserver::raft_glue::{
    answer_write, ensure_leader, parse_peers, redirect_location, PeerError, PeerErrorView,
};
use crate::apiserver::services::{
    get_endpoints, get_service, list_or_watch_endpoints, list_or_watch_services,
};
use crate::apiserver::storage;
use crate::apiserver::storage::index_rv;
use crate::apiserver::watch::{Everything, NodeFilter};
use crate::endpoints::Endpoints;
use crate::meta::ObjectMeta;
use crate::node::Node;
use crate::pod::Pod;
use crate::raft::log::NodeId;
use crate::replicaset::ReplicaSet;
use crate::service::Service;
use crate::text;

verus! {

/// Law: each error has its own code, its own word, and a message that names what
/// it is about.
pub proof fn errors_have_their_code(e: &ApiError, body: Status)
    requires
        call_ensures(ApiError::status, (e,), body),
    ensures
        body.kind@ == "Status"@,
        body.api_version@ == "v1"@,
        match e {
            ApiError::NotFound(n) => body.code == 404 && body.reason@ == "NotFound"@
                && body.message@ == "not found: "@ + n@,
            ApiError::AlreadyExists(n) => body.code == 409 && body.reason@ == "AlreadyExists"@
                && body.message@ == "already exists: "@ + n@,
            ApiError::Conflict { current, provided } => body.code == 409 && body.reason@
                == "Conflict"@ && body.message@ == "conflict: current rv "@ + current@
                + ", provided "@ + provided@,
            ApiError::BadRequest(m) => body.code == 400 && body.reason@ == "BadRequest"@
                && body.message@ == "bad request: "@ + m@,
            ApiError::Internal(m) => body.code == 500 && body.reason@ == "Internal"@
                && body.message@ == "internal: "@ + m@,
            ApiError::Redirect(url) => body.code == 307 && body.reason@ == "Redirect"@
                && body.message@ == "redirect to "@ + url@,
        },
{
}

/// Law: what became of a command is what its client is told. A command of which
/// nothing was heard in time is an error of the server's.
pub proof fn verdicts_are_passed_on(
    outcome: ApplyOutcome,
    r: Result<Object, ApiError>,
    told: Result<Object, ApiError>,
    late: Result<Object, ApiError>,
)
    requires
        call_ensures(outcome_to_result, (outcome,), r),
        call_ensures(answer_write, (Some(outcome),), told),
        call_ensures(answer_write, (None,), late),
    ensures
        match outcome {
            ApplyOutcome::Done(o) => match (r, told) {
                (Ok(a), Ok(b)) => a.deep_view() == o.deep_view() && b.deep_view() == o.deep_view(),
                _ => false,
            },
            ApplyOutcome::NotFound(n) => match (r, told) {
                (Err(ApiError::NotFound(a)), Err(ApiError::NotFound(b))) => a@ == n@ && b@ == n@,
                _ => false,
            },
            ApplyOutcome::AlreadyExists(n) => match (r, told) {
                (Err(ApiError::AlreadyExists(a)), Err(ApiError::AlreadyExists(b))) => a@ == n@
                    && b@ == n@,
                _ => false,
            },
            ApplyOutcome::Conflict { current, provided } => match (r, told) {
                (
                    Err(ApiError::Conflict { current: c, provided: p }),
                    Err(ApiError::Conflict { current: d, provided: q }),
                ) => c@ == current@ && d@ == current@ && p@ == provided@ && q@ == provided@,
                _ => false,
            },
            ApplyOutcome::Internal(m) => match (r, told) {
                (Err(ApiError::Internal(a)), Err(ApiError::Internal(b))) => a@ == m@ && b@ == m@,
                _ => false,
            },
        },
        match late {
            Err(ApiError::Internal(m)) => m@ == "write timed out (not committed)"@,
            _ => false,
        },
{
}

/// Law: a read gives back the stored object, and names what it did not find.
pub proof fn reads_give_back_what_is_stored(
    state: &AppState,
    name: &str,
    pod: Result<Pod, ApiError>,
    rs: Result<ReplicaSet, ApiError>,
    node: Result<Node, ApiError>,
    svc: Result<Service, ApiError>,
    ep: Result<Endpoints, ApiError>,
)
    requires
        call_ensures(get_pod, (state, name), pod),
        call_ensures(get_replicaset, (state, name), rs),
        call_ensures(get_node, (state, name), node),
        call_ensures(get_service, (state, name), svc),
        call_ensures(get_endpoints, (state, name), ep),
    ensures
        match pod {
            Ok(o) => state@.pods.objects.contains_key(name@) && o.deep_view()
                == state@.pods.objects[name@],
            Err(ApiError::NotFound(n)) => !state@.pods.objects.contains_key(name@) && n@ == name@,
            _ => false,
        },
        match rs {
            Ok(o) => state@.replicasets.objects.contains_key(name@) && o.deep_view()
                == state@.replicasets.objects[name@],
            Err(ApiError::NotFound(n)) => !state@.replicasets.objects.contains_key(name@) && n@
                == name@,
            _ => false,
        },
        match node {
            Ok(o) => state@.nodes.objects.contains_key(name@) && o.deep_view()
                == state@.nodes.objects[name@],
            Err(ApiError::NotFound(n)) => !state@.nodes.objects.contains_key(name@) && n@ == name@,
            _ => false,
        },
        match svc {
            Ok(o) => state@.services.objects.contains_key(name@) && o.deep_view()
                == state@.services.objects[name@],
            Err(ApiError::NotFound(n)) => !state@.services.objects.contains_key(name@) && n@
                == name@,
            _ => false,
        },
        match ep {
            Ok(o) => state@.endpoints.objects.contains_key(name@) && o.deep_view()
                == state@.endpoints.objects[name@],
            Err(ApiError::NotFound(n)) => !state@.endpoints.objects.contains_key(name@) && n@
                == name@,
            _ => false,
        },
{
}

/// Law: a request for Pods is a watch exactly where it says so. A watch starts
/// where the client has got to, if that is a number, and else at the beginning;
/// it is narrowed to a node by the one selector there is.
pub proof fn watches_are_asked_for(
    state: &AppState,
    params: &ListWatchParams,
    r: ListOrWatch<PodList, NodeFilter>,
    at: u64,
    node: Seq<char>,
)
    requires
        call_ensures(list_or_watch_pods, (state, params), r),
    ensures
        r is Watch <==> params.watch == Some(true),
        match r {
            ListOrWatch::Watch { from_rv, filter } => {
                &&& params.resource_version is None ==> from_rv == 0
                &&& params.resource_version is Some && params.resource_version->0@
                    == text::decimal_chars(at as nat) ==> from_rv == at
                &&& params.field_selector is None ==> filter.node is None
                &&& params.field_selector is Some && params.field_selector->0@
                    == "spec.nodeName="@ + node ==> filter.node is Some && filter.node->0@ == node
            },
            ListOrWatch::List(_) => true,
        },
{
    text::decimal_parses_back(at);
    let whole = "spec.nodeName="@ + node;
    let n = "spec.nodeName="@.len() as int;
    assert(whole.take(n) =~= "spec.nodeName="@);
    assert(whole.skip(n) =~= node);
}

/// Law: a selector asks for a node exactly where it is the node's name behind
/// `spec.nodeName=`; any other selects everything. A version that is no number
/// counts as none.
pub proof fn selectors_name_a_node(
    selector: Option<&str>,
    node: Option<String>,
    version: Option<&str>,
    rv: u64,
)
    requires
        call_ensures(parse_node_name_selector, (selector,), node),
        call_ensures(parse_rv, (version,), rv),
    ensures
        match node {
            Some(node) => selector is Some && selector->0@ == "spec.nodeName="@ + node@,
            None => selector is None || forall|name: Seq<char>| selector->0@ != #[trigger] (
            "spec.nodeName="@ + name),
        },
        match version {
            Some(s) => match text::parsed_u64(s@) {
                Some(n) => rv == n,
                None => rv == 0,
            },
            None => rv == 0,
        },
{
    let prefix = "spec.nodeName="@;
    let n = prefix.len() as int;
    match (selector, node) {
        (Some(s), Some(name)) => {
            assert(s@ =~= s@.take(n) + s@.skip(n));
        },
        (Some(s), None) => {
            assert forall|name: Seq<char>| s@ != #[trigger] (prefix + name) by {
                if s@ == prefix + name {
                    assert(s@.take(n) =~= prefix);
                }
            }
        },
        _ => {},
    }
}

/// Law: a write passes on the leader and nowhere else. Another replica sends it
/// to the leader's address; without a leader, or with one whose address is not
/// known, it is an error of the server's.
pub proof fn writes_go_to_the_leader(
    id: NodeId,
    leader: Option<NodeId>,
    peer_apis: &HashMap<NodeId, String>,
    r: Result<(), ApiError>,
)
    requires
        call_ensures(ensure_leader, (id, leader, peer_apis), r),
    ensures
        r is Ok <==> leader == Some(id),
        leader is Some && leader->0 != id && peer_apis@.contains_key(leader->0) ==> (match r {
            Err(ApiError::Redirect(url)) => url@ == peer_apis@[leader->0]@,
            _ => false,
        }),
        leader is None || (leader->0 != id && !peer_apis@.contains_key(leader->0)) ==> (match r {
            Err(ApiError::Internal(_)) => true,
            _ => false,
        }),
{
}

/// Law: slashes are counted one by one. An address with two of them has no path
/// and gets the one that was asked for; any other stays as it is.
pub proof fn redirects_keep_the_path(
    chars: Seq<char>,
    more: char,
    base: &str,
    path_and_query: &str,
    url: String,
)
    requires
        call_ensures(redirect_location, (base, path_and_query), url),
    ensures
        raft_glue::slashes(Seq::empty()) == 0,
        raft_glue::slashes(chars.push(more)) == raft_glue::slashes(chars) + (if more == '/' {
            1int
        } else {
            0int
        }),
        raft_glue::slashes(base@) == 2 ==> url@ == base@ + path_and_query@,
        raft_glue::slashes(base@) != 2 ==> url@ == base@,
{
    reveal(Seq::filter);
    assert(chars.push(more).drop_last() =~= chars);
}

/// Law: the replicas are read entry by entry. An empty entry names none; one
/// with an equals sign names the number before the first of them, at the address
/// behind it, in place of an earlier one of that number; any other entry is an
/// error, and the first error stands.
pub proof fn peers_are_read_entry_by_entry(parts: Seq<Seq<char>>, part: Seq<char>)
    ensures
        raft_glue::peers_of(Seq::empty()) == Ok::<Map<NodeId, Seq<char>>, PeerErrorView>(
            Map::empty(),
        ),
        match raft_glue::peers_of(parts) {
            Err(e) => raft_glue::peers_of(parts.push(part)) == Err::<
                Map<NodeId, Seq<char>>,
                PeerErrorView,
            >(e),
            Ok(peers) => match raft_glue::peers_of(parts.push(part)) {
                Ok(more) => if part.len() == 0 {
                    more == peers
                } else {
                    match text::halves(part, '=') {
                        Some((id, url)) => match text::parsed_u64(id) {
                            Some(n) => more == peers.insert(n, url),
                            None => false,
                        },
                        None => false,
                    }
                },
                Err(PeerErrorView::Malformed(bad)) => bad == part && part.len() > 0
                    && text::halves(part, '=') is None,
                Err(PeerErrorView::BadId(bad)) => match text::halves(part, '=') {
                    Some((id, url)) => bad == id && part.len() > 0 && text::parsed_u64(id) is None,
                    None => false,
                },
            },
        },
{
    assert(parts.push(part).drop_last() =~= parts);
}

/// Law: the entries of a list of replicas are what its commas separate.
pub proof fn peer_lists_are_separated_by_commas(
    s: &str,
    r: Result<HashMap<NodeId, String>, PeerError>,
    id: NodeId,
)
    requires
        call_ensures(parse_peers, (s,), r),
    ensures
        match (r, raft_glue::peers_of(text::pieces(s@, ','))) {
            (Ok(peers), Ok(named)) => (peers@.contains_key(id) <==> named.contains_key(id)) && (
            named.contains_key(id) ==> peers@[id]@ == named[id]),
            (Err(e), Err(found)) => e.deep_view() == found,
            _ => false,
        },
{
    if let Ok(peers) = r {
        assert(raft_glue::addresses(peers@).contains_key(id) == peers@.contains_key(id));
    }
}


/// Whether a list holds all objects of a kind, each once.
pub open spec fn lists_everything<V>(items: Seq<V>, objects: Map<Seq<char>, V>) -> bool {
    exists|keys: Seq<Seq<char>>| #[trigger] names_each(items, objects, keys)
}

/// Whether some names, in their order and without one twice, are those of all
/// objects, and a list holds the objects in the order of these names.
pub open spec fn names_each<V>(
    items: Seq<V>,
    objects: Map<Seq<char>, V>,
    keys: Seq<Seq<char>>,
) -> bool {
    &&& keys.len() == items.len()
    &&& forall|i: int|
        0 <= i < items.len() ==> objects.contains_key(#[trigger] keys[i]) && objects[keys[i]]
            == items[i]
    &&& forall|i: int, j: int|
        0 <= i < j < keys.len() ==> text::text_before(#[trigger] keys[i], #[trigger] keys[j])
    &&& forall|n: Seq<char>| #[trigger] objects.contains_key(n) ==> keys.contains(n)
}

/// Law: a list of ReplicaSets, nodes, Services or their backends holds all that
/// are stored, each once, in the order of their names. It is a watch instead
/// exactly where that is asked for.
pub proof fn lists_are_whole(
    state: &AppState,
    params: &ListWatchParams,
    sets: ListOrWatch<ReplicaSetList, Everything>,
    nodes: ListOrWatch<NodeList, Everything>,
    services: ListOrWatch<Vec<Service>, Everything>,
    endpoints: ListOrWatch<Vec<Endpoints>, Everything>,
)
    requires
        call_ensures(list_or_watch_replicasets, (state, params), sets),
        call_ensures(list_or_watch_nodes, (state, params), nodes),
        call_ensures(list_or_watch_services, (state, params), services),
        call_ensures(list_or_watch_endpoints, (state, params), endpoints),
        state@.replicasets.objects.dom().finite(),
        state@.nodes.objects.dom().finite(),
        state@.services.objects.dom().finite(),
        state@.endpoints.objects.dom().finite(),
    ensures
        params.watch == Some(true) <==> sets is Watch,
        params.watch == Some(true) <==> nodes is Watch,
        params.watch == Some(true) <==> services is Watch,
        params.watch == Some(true) <==> endpoints is Watch,
        match sets {
            ListOrWatch::List(list) => lists_everything(
                list.items.deep_view(),
                state@.replicasets.objects,
            ) && list.kind@ == "ReplicaSetList"@ && list.api_version@ == "apps/v1"@,
            ListOrWatch::Watch { from_rv, .. } => starts_at(params.resource_version, from_rv),
        },
        match nodes {
            ListOrWatch::List(list) => lists_everything(
                list.items.deep_view(),
                state@.nodes.objects,
            ) && list.kind@ == "NodeList"@ && list.api_version@ == "v1"@,
            ListOrWatch::Watch { from_rv, .. } => starts_at(params.resource_version, from_rv),
        },
        match services {
            ListOrWatch::List(items) => lists_everything(
                items.deep_view(),
                state@.services.objects,
            ),
            ListOrWatch::Watch { from_rv, .. } => starts_at(params.resource_version, from_rv),
        },
        match endpoints {
            ListOrWatch::List(items) => lists_everything(
                items.deep_view(),
                state@.endpoints.objects,
            ),
            ListOrWatch::Watch { from_rv, .. } => starts_at(params.resource_version, from_rv),
        },
{
    let all = state@;
    let a = laws::listings_hold_everything(
        all.replicasets.objects,
        all.replicasets.events,
        Seq::empty(),
    );
    assert(names_each(
        storage::values_in_name_order(all.replicasets.objects),
        all.replicasets.objects,
        a,
    ));
    let b = laws::listings_hold_everything(all.nodes.objects, all.nodes.events, Seq::empty());
    assert(names_each(storage::values_in_name_order(all.nodes.objects), all.nodes.objects, b));
    let c = laws::listings_hold_everything(all.services.objects, all.services.events, Seq::empty());
    assert(names_each(
        storage::values_in_name_order(all.services.objects),
        all.services.objects,
        c,
    ));
    let d = laws::listings_hold_everything(
        all.endpoints.objects,
        all.endpoints.events,
        Seq::empty(),
    );
    assert(names_each(
        storage::values_in_name_order(all.endpoints.objects),
        all.endpoints.objects,
        d,
    ));
}

/// Whether a watch starts at the version that is asked for, if that is a number,
/// and else at the beginning.
pub open spec fn starts_at(version: Option<String>, from_rv: u64) -> bool {
    match version {
        Some(s) => match text::parsed_u64(s@) {
            Some(n) => from_rv == n,
            None => from_rv == 0,
        },
        None => from_rv == 0,
    }
}

/// Law: an object is indexed under its version, exactly where that is a number:
/// the key is the number with twenty digits, and leads to the name.
pub proof fn versions_are_indexed(m: &ObjectMeta, entry: Option<(Vec<u8>, String)>, i: int)
    requires
        call_ensures(index_rv, (m,), entry),
        0 <= i < 20,
    ensures
        entry is Some <==> m.resource_version is Some && text::parsed_u64(
            m.resource_version->0@,
        ) is Some,
        match entry {
            Some((key, name)) => {
                let rv = text::parsed_u64(m.resource_version->0@)->0;
                &&& name@ == m.name@
                &&& key@.len() == 20
                &&& key@[i] == 48 + (rv as int / pow(10, (19 - i) as nat)) % 10
            },
            None => true,
        },
{
    if entry is Some {
        let rv = text::parsed_u64(m.resource_version->0@)->0;
        text::padded_digits_have_places(rv as nat, 20, i);
    }
}

} // verus!
