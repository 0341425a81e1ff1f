//! Requests on services and endpoints. A service gets its virtual address from
//! 10.96.0.0/16 when it is created, and keeps it.

use vstd::prelude::*;

use crate::apiserver::applier::ReplicaView;
use crate::apiserver::command::{KindOp, KindOpView, Object};
use crate::apiserver::handlers;
use crate::apiserver::handlers::{
    perform, stamped_create_command, ApiError, ApiErrorView, ApiKind, AppState, ListOrWatch,
    ListWatchParams, RvParams,
};
use crate::apiserver::storage;
use crate::apiserver::watch::Everything;
use crate::clock;
use crate::identity;
use crate::endpoints::Endpoints;
use crate::service::{Service, ServiceSpecView, ServiceView};
use crate::text;

verus! {

/// The counter of service addresses.
pub const SERVICE_IP_COUNTER: &'static str = "service_ip_counter";

/// The last host number of a /16 that is not its broadcast address.
pub const LAST_SERVICE_HOST: u64 = 65534;

/// The address of a host of the service range, by its number.
pub open spec fn service_ip_chars(host: u64) -> Seq<char> {
    "10.96."@ + text::decimal_chars((host / 256) as nat) + "."@ + text::decimal_chars(
        (host % 256) as nat,
    )
}

pub open spec fn ips_exhausted_chars(host: u64) -> Seq<char> {
    "service IP space exhausted (host "@ + text::decimal_chars(host as nat) + " exceeds 65534)"@
}

/// A new service, with its address: one that brings its own or exists already
/// does not use one up. Host numbers start at 1.
pub open spec fn with_address(state: ReplicaView, svc: ServiceView) -> (
    Map<Seq<char>, u64>,
    Result<ServiceView, ApiErrorView>,
) {
    if svc.spec.cluster_ip is None && !state.services.objects.contains_key(svc.metadata.name) {
        let host = storage::next_number(storage::counter(state.db, SERVICE_IP_COUNTER@));
        let db = state.db.insert(SERVICE_IP_COUNTER@, host);
        if host > LAST_SERVICE_HOST {
            (db, Err(ApiErrorView::Internal(ips_exhausted_chars(host))))
        } else {
            (
                db,
                Ok(
                    ServiceView {
                        spec: ServiceSpecView {
                            cluster_ip: Some(service_ip_chars(host)),
                            ..svc.spec
                        },
                        ..svc
                    },
                ),
            )
        }
    } else {
        (state.db, Ok(svc))
    }
}

/// Gives a new service its address.
fn assign_address(state: &mut AppState, svc: Service) -> (r: Result<Service, ApiError>)
    ensures
        (final(state)@.db, handlers::answer_of(r)) == with_address(old(state)@, svc.deep_view()),
        final(state)@ == (ReplicaView { db: final(state)@.db, ..old(state)@ }),
{
    if svc.spec.cluster_ip.is_none() && state.services.get(svc.metadata.name.as_str()).is_none() {
        let index: u64 = state.db.next_index(SERVICE_IP_COUNTER);
        let host: u64 = index.saturating_add(1);
        if host > LAST_SERVICE_HOST {
            let mut m = "service IP space exhausted (host ".to_owned();
            text::push_decimal(&mut m, host);
            m.append(" exceeds 65534)");
            return Err(ApiError::Internal(m));
        }
        let mut ip = "10.96.".to_owned();
        text::push_decimal(&mut ip, host / 256);
        ip.append(".");
        text::push_decimal(&mut ip, host % 256);
        let mut svc = svc;
        svc.spec.cluster_ip = Some(ip);
        Ok(svc)
    } else {
        Ok(svc)
    }
}

/// Plans the creation of a service, with the state after its address was
/// drawn.
pub open spec fn service_planned(
    state: ReplicaView,
    svc: ServiceView,
    uid: Seq<char>,
    created: Seq<char>,
) -> (ReplicaView, Result<KindOpView, ApiErrorView>) {
    match Service::problem(svc) {
        Some(m) => (state, Err(ApiErrorView::BadRequest(m))),
        None => {
            let (db, assigned) = with_address(state, svc);
            (
                ReplicaView { db, ..state },
                match assigned {
                    Ok(s) => handlers::create_planned::<Service>(s, uid, created),
                    Err(e) => Err(e),
                },
            )
        },
    }
}

/// Plans the creation of a service.
pub fn service_command(state: &mut AppState, svc: Service) -> (r: Result<KindOp, ApiError>)
    ensures
        exists|uid: Seq<char>, created: Seq<char>|
            identity::is_uid(uid) && (final(state)@, handlers::answer_of(r)) == #[trigger] service_planned(
                old(state)@,
                svc.deep_view(),
                uid,
                created,
            ),
{
    let uid = identity::new_uid();
    let created = clock::now_rfc3339();
    let ghost planned = service_planned(old(state)@, svc.deep_view(), uid@, created@);
    if let Err(e) = svc.validate() {
        return Err(e);
    }
    match assign_address(state, svc) {
        Ok(s) => stamped_create_command(s, uid, created),
        Err(e) => Err(e),
    }
}

pub fn create_service(state: &mut AppState, svc: Service) -> (r: Result<Object, ApiError>)
    ensures
        exists|uid: Seq<char>, created: Seq<char>|
            {
                let (drawn, planned) = #[trigger] service_planned(
                    old(state)@,
                    svc.deep_view(),
                    uid,
                    created,
                );
                identity::is_uid(uid) && (final(state)@, handlers::answer_of(r)) == handlers::performed(drawn, planned)
            },
{
    let planned = service_command(state, svc);
    perform(state, planned)
}

/// A service as it is stored when it is replaced: with the address it has.
pub open spec fn with_kept_address(
    state: ReplicaView,
    name: Seq<char>,
    svc: ServiceView,
) -> ServiceView {
    if state.services.objects.contains_key(name)
        && state.services.objects[name].spec.cluster_ip is Some {
        ServiceView {
            spec: ServiceSpecView {
                cluster_ip: state.services.objects[name].spec.cluster_ip,
                ..svc.spec
            },
            ..svc
        }
    } else {
        svc
    }
}

/// Plans the replacement of a service's spec.
pub fn replace_service_command(state: &AppState, name: &str, svc: Service) -> (r: Result<
    KindOp,
    ApiError,
>)
    ensures
        handlers::answer_of(r) == handlers::replace_planned::<Service>(
            name@,
            with_kept_address(state@, name@, svc.deep_view()),
        ),
{
    let mut svc = svc;
    if let Some(stored) = state.services.get(name) {
        if stored.spec.cluster_ip.is_some() {
            svc.spec.cluster_ip = stored.spec.cluster_ip;
        }
    }
    handlers::replace_command(name, svc)
}

pub fn replace_service_spec(state: &mut AppState, name: &str, svc: Service) -> (r: Result<
    Object,
    ApiError,
>)
    ensures
        (final(state)@, handlers::answer_of(r)) == handlers::performed(
            old(state)@,
            handlers::replace_planned::<Service>(
                name@,
                with_kept_address(old(state)@, name@, svc.deep_view()),
            ),
        ),
{
    let planned = replace_service_command(state, name, svc);
    perform(state, planned)
}

pub fn delete_service(state: &mut AppState, name: &str, params: RvParams) -> (r: Result<
    Object,
    ApiError,
>)
    ensures
        (final(state)@, handlers::answer_of(r)) == handlers::performed(
            old(state)@,
            handlers::delete_planned::<Service>(name@, params.resource_version.deep_view()),
        ),
{
    let planned = handlers::delete_command::<Service>(name, params);
    perform(state, planned)
}

pub fn get_service(state: &AppState, name: &str) -> (r: Result<Service, ApiError>)
    ensures
        handlers::answer_of(r) == handlers::read(state@.services, name@),
{
    handlers::get_object(&state.services, name)
}

pub fn list_services(state: &AppState) -> (items: Vec<Service>)
    ensures
        items.deep_view() == storage::values_in_name_order(state@.services.objects),
{
    let (items, _rv) = state.services.list(&state.db);
    items
}

pub fn list_or_watch_services(state: &AppState, params: &ListWatchParams) -> (r: ListOrWatch<
    Vec<Service>,
    Everything,
>)
    ensures
        match r {
            ListOrWatch::Watch { from_rv, filter } => {
                &&& handlers::wants_watch(*params)
                &&& from_rv == handlers::requested_rv(params.resource_version.deep_view())
            },
            ListOrWatch::List(items) => {
                &&& !handlers::wants_watch(*params)
                &&& items.deep_view() == storage::values_in_name_order(state@.services.objects)
            },
        },
{
    if handlers::watch_asked(params) {
        ListOrWatch::Watch {
            from_rv: handlers::parse_rv(handlers::as_text(&params.resource_version)),
            filter: Everything,
        }
    } else {
        ListOrWatch::List(list_services(state))
    }
}

pub fn create_endpoints(state: &mut AppState, ep: Endpoints) -> (r: Result<Object, ApiError>)
    ensures
        exists|uid: Seq<char>, created: Seq<char>|
            identity::is_uid(uid) && (final(state)@, handlers::answer_of(r)) == handlers::performed(
                old(state)@,
                #[trigger] handlers::create_planned::<Endpoints>(ep.deep_view(), uid, created),
            ),
{
    let planned = handlers::create_command(ep);
    perform(state, planned)
}

pub fn replace_endpoints(state: &mut AppState, name: &str, ep: Endpoints) -> (r: Result<
    Object,
    ApiError,
>)
    ensures
        (final(state)@, handlers::answer_of(r)) == handlers::performed(
            old(state)@,
            handlers::replace_planned::<Endpoints>(name@, ep.deep_view()),
        ),
{
    let planned = handlers::replace_command(name, ep);
    perform(state, planned)
}

pub fn delete_endpoints(state: &mut AppState, name: &str, params: RvParams) -> (r: Result<
    Object,
    ApiError,
>)
    ensures
        (final(state)@, handlers::answer_of(r)) == handlers::performed(
            old(state)@,
            handlers::delete_planned::<Endpoints>(name@, params.resource_version.deep_view()),
        ),
{
    let planned = handlers::delete_command::<Endpoints>(name, params);
    perform(state, planned)
}

pub fn get_endpoints(state: &AppState, name: &str) -> (r: Result<Endpoints, ApiError>)
    ensures
        handlers::answer_of(r) == handlers::read(state@.endpoints, name@),
{
    handlers::get_object(&state.endpoints, name)
}

pub fn list_endpoints(state: &AppState) -> (items: Vec<Endpoints>)
    ensures
        items.deep_view() == storage::values_in_name_order(state@.endpoints.objects),
{
    let (items, _rv) = state.endpoints.list(&state.db);
    items
}

pub fn list_or_watch_endpoints(state: &AppState, params: &ListWatchParams) -> (r: ListOrWatch<
    Vec<Endpoints>,
    Everything,
>)
    ensures
        match r {
            ListOrWatch::Watch { from_rv, filter } => {
                &&& handlers::wants_watch(*params)
                &&& from_rv == handlers::requested_rv(params.resource_version.deep_view())
            },
            ListOrWatch::List(items) => {
                &&& !handlers::wants_watch(*params)
                &&& items.deep_view() == storage::values_in_name_order(state@.endpoints.objects)
            },
        },
{
    if handlers::watch_asked(params) {
        ListOrWatch::Watch {
            from_rv: handlers::parse_rv(handlers::as_text(&params.resource_version)),
            filter: Everything,
        }
    } else {
        ListOrWatch::List(list_endpoints(state))
    }
}

/// Law: a service that was created without an address has one, and a
/// replacement that succeeds keeps the address the service has.
pub proof fn service_addresses_stay(
    state: ReplicaView,
    svc: ServiceView,
    uid: Seq<char>,
    created: Seq<char>,
    name: Seq<char>,
    newer: ServiceView,
)
    ensures
        ({
            let (drawn, planned) = service_planned(state, svc, uid, created);
            let (after, answer) = handlers::performed(drawn, planned);
            answer is Ok ==> after.services.objects[svc.metadata.name].spec.cluster_ip is Some
        }),
        state.services.objects.contains_key(name)
            && state.services.objects[name].spec.cluster_ip is Some ==> ({
            let (after, answer) = handlers::performed(
                state,
                handlers::replace_planned::<Service>(name, with_kept_address(state, name, newer)),
            );
            after.services.objects.contains_key(name)
                && after.services.objects[name].spec.cluster_ip
                == state.services.objects[name].spec.cluster_ip
        }),
{
}

} // verus!
