//! What the client asks for, and what it makes of the answers.

use my_k8s::apiserver::handlers::ApiError;
use my_k8s::client::{
    binding_path, check_status, map_envelope, pods_on_node_path, watch_pods_on_node_path, Address,
    ClientError, Collection, StatusEnvelope,
};

fn envelope(code: u16, reason: Option<&str>, message: &str) -> StatusEnvelope {
    StatusEnvelope {
        code,
        message: message.into(),
        reason: reason.map(String::from),
    }
}

#[test]
fn refusals_become_errors() {
    assert_eq!(
        map_envelope(404, envelope(404, Some("NotFound"), "not found: x")),
        ClientError::NotFound
    );
    assert_eq!(
        map_envelope(409, envelope(409, Some("AlreadyExists"), "already exists: x")),
        ClientError::AlreadyExists
    );
    assert_eq!(
        map_envelope(409, envelope(409, Some("Conflict"), "conflict: m")),
        ClientError::Conflict { message: "conflict: m".into() }
    );
    assert_eq!(
        map_envelope(409, envelope(409, None, "m")),
        ClientError::Conflict { message: "m".into() }
    );
    assert_eq!(
        map_envelope(400, envelope(400, Some("BadRequest"), "bad request: m")),
        ClientError::Http { status: 400, message: "bad request: m".into() }
    );
}

#[test]
fn the_server_s_refusals_are_told_apart() {
    for (e, expected) in [
        (ApiError::NotFound("x".into()), ClientError::NotFound),
        (ApiError::AlreadyExists("x".into()), ClientError::AlreadyExists),
        (
            ApiError::Conflict { current: "1".into(), provided: "2".into() },
            ClientError::Conflict { message: "conflict: current rv 1, provided 2".into() },
        ),
    ] {
        let s = e.status();
        let env = envelope(s.code, Some(&s.reason), &s.message);
        assert_eq!(check_status(s.code, Some(env), ""), Err(expected));
    }
}

#[test]
fn statuses_without_an_envelope_keep_their_body() {
    assert_eq!(check_status(200, None, ""), Ok(()));
    assert_eq!(check_status(299, None, ""), Ok(()));
    assert_eq!(
        check_status(502, None, "bad gateway"),
        Err(ClientError::Http { status: 502, message: "bad gateway".into() })
    );
    assert!(check_status(300, None, "").is_err());
    assert!(check_status(199, None, "").is_err());
}

#[test]
fn errors_read_well() {
    assert_eq!(
        ClientError::Http { status: 502, message: "m".into() }.message(),
        "HTTP 502: m"
    );
    assert_eq!(ClientError::Conflict { message: "m".into() }.message(), "conflict: m");
    assert_eq!(ClientError::AlreadyExists.message(), "already exists");
    assert_eq!(ClientError::NotFound.message(), "not found");
}

#[test]
fn urls_are_put_together() {
    let a = Address::new("http://localhost:8080//");
    assert_eq!(a.base_url, "http://localhost:8080");
    assert_eq!(a.url("/api/v1/pods"), "http://localhost:8080/api/v1/pods");
    assert_eq!(Collection::Pods.path(), "/api/v1/pods");
    assert_eq!(Collection::Pods.object_path("web"), "/api/v1/pods/web");
    assert_eq!(
        Collection::Nodes.delete_path("n", "3"),
        "/api/v1/nodes/n?resourceVersion=3"
    );
    assert_eq!(
        Collection::ReplicaSets.status_path("web", "3"),
        "/api/v1/replicasets/web/status?resourceVersion=3"
    );
    assert_eq!(
        Collection::Services.watch_path(Some("7")),
        "/api/v1/services?watch=true&resourceVersion=7"
    );
    assert_eq!(Collection::Endpoints.watch_path(None), "/api/v1/endpoints?watch=true");
    assert_eq!(
        pods_on_node_path("node-a"),
        "/api/v1/pods?fieldSelector=spec.nodeName=node-a"
    );
    assert_eq!(
        watch_pods_on_node_path("node-a", Some("0")),
        "/api/v1/pods?watch=true&fieldSelector=spec.nodeName=node-a&resourceVersion=0"
    );
    assert_eq!(
        watch_pods_on_node_path("node-a", None),
        "/api/v1/pods?watch=true&fieldSelector=spec.nodeName=node-a"
    );
    assert_eq!(binding_path("web"), "/api/v1/pods/web/binding");
}
