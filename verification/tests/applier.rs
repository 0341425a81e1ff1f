//! Replicated commands.

use my_k8s::apiserver::applier::Applier;
use my_k8s::apiserver::command::{ApplyOutcome, Kind, KindOp, Object, Op, StoreCommand};
use my_k8s::apiserver::raft_glue::{
    answer_write, ensure_leader, parse_peers, redirect_location, PeerError,
};
use my_k8s::apiserver::handlers::ApiError;
use my_k8s::pod::{Pod, PodMetadata, PodPhase, PodSpec, PodStatus};
use std::collections::HashMap;

/// An empty replica.
fn applier() -> Applier {
    Applier::new()
}

fn cmd(op: Op<Pod, PodStatus>) -> StoreCommand {
    StoreCommand {
        id: 0,
        op: KindOp::Pods(op),
    }
}

/// A fully stamped pod (as the leader would build it before proposing).
fn pod_obj(name: &str) -> Result<Pod, String> {
    Ok(Pod {
        api_version: "v1".into(),
        kind: "Pod".into(),
        metadata: PodMetadata {
            name: name.into(),
            uid: Some(format!("uid-{name}")),
            creation_timestamp: Some("2026-06-12T10:00:00Z".into()),
            ..Default::default()
        },
        spec: PodSpec {
            containers: vec![],
            node_name: None,
        },
        status: None,
    })
}

fn running() -> Option<PodStatus> {
    Some(PodStatus {
        phase: PodPhase::Running,
        container_statuses: vec![],
        observed_generation: None,
        pod_ip: None,
    })
}

fn done(out: ApplyOutcome) -> Pod {
    match out {
        ApplyOutcome::Done(Object::Pod(p)) => p,
        other => panic!("expected a pod, got {other:?}"),
    }
}

/// Every pod as (name, version, uid).
fn dump_pods(a: &Applier) -> Vec<(String, Option<String>, Option<String>)> {
    let (mut pods, _) = a.pods.list(&a.db);
    pods.sort_by(|x, y| x.metadata.name.cmp(&y.metadata.name));
    pods.into_iter()
        .map(|p| (p.metadata.name, p.metadata.resource_version, p.metadata.uid))
        .collect()
}

#[test]
fn create_then_get_via_store() {
    let mut a = applier();
    let p = done(a.apply(cmd(Op::Create { obj: pod_obj("web") })));
    // The uid is the leader's, the version is assigned here.
    assert_eq!(p.metadata.uid.as_deref(), Some("uid-web"));
    assert_eq!(p.metadata.resource_version.as_deref(), Some("1"));
    assert!(a.pods.get("web").is_some());
}

#[test]
fn duplicate_create_is_already_exists() {
    let mut a = applier();
    a.apply(cmd(Op::Create { obj: pod_obj("web") }));
    let out = a.apply(cmd(Op::Create { obj: pod_obj("web") }));
    assert_eq!(out, ApplyOutcome::AlreadyExists("web".into()));
}

#[test]
fn delete_with_wrong_rv_is_conflict() {
    let mut a = applier();
    a.apply(cmd(Op::Create { obj: pod_obj("web") }));
    let out = a.apply(cmd(Op::Delete {
        name: "web".into(),
        rv: "999".into(),
    }));
    assert!(matches!(out, ApplyOutcome::Conflict { .. }));
}

#[test]
fn delete_missing_is_not_found() {
    let mut a = applier();
    let out = a.apply(cmd(Op::Delete {
        name: "ghost".into(),
        rv: "1".into(),
    }));
    assert_eq!(out, ApplyOutcome::NotFound("ghost".into()));
}

#[test]
fn replace_status_assigns_typed_status_and_bumps_rv() {
    let mut a = applier();
    a.apply(cmd(Op::Create { obj: pod_obj("web") }));
    let p = done(a.apply(cmd(Op::ReplaceStatus {
        name: "web".into(),
        rv: "1".into(),
        status: running(),
    })));
    assert_eq!(p.status.unwrap().phase, PodPhase::Running);
    assert_eq!(p.metadata.resource_version.as_deref(), Some("2"));
}

#[test]
fn unknown_kind_is_internal() {
    let mut a = applier();
    assert_eq!(Kind::parse("widgets/"), None);
    let out = a.apply(StoreCommand {
        id: 0,
        op: KindOp::Unknown("widgets/".into()),
    });
    assert!(matches!(out, ApplyOutcome::Internal(_)));
}

/// Two replicas that are fed the same commands end up the same.
#[test]
fn two_appliers_same_stream_converge_identically() {
    let stream = || vec![
        cmd(Op::Create { obj: pod_obj("a") }),
        cmd(Op::Create { obj: pod_obj("b") }),
        cmd(Op::ReplaceStatus {
            name: "a".into(),
            rv: "1".into(),
            status: running(),
        }),
        cmd(Op::Create { obj: pod_obj("c") }),
        cmd(Op::Delete {
            name: "b".into(),
            rv: "2".into(),
        }),
    ];

    let mut replica_a = applier();
    let mut replica_b = applier();
    for (a, b) in stream().into_iter().zip(stream()) {
        assert_eq!(a, b);
        let shown = format!("{:?}", a.op);
        let oa = replica_a.apply(a);
        let ob = replica_b.apply(b);
        assert_eq!(oa, ob, "outcomes diverged on {shown}");
    }

    assert_eq!(dump_pods(&replica_a), dump_pods(&replica_b));
    let dump = dump_pods(&replica_a);
    let names: Vec<&str> = dump.iter().map(|(n, _, _)| n.as_str()).collect();
    assert_eq!(names, vec!["a", "c"]);
}

#[test]
fn a_refused_command_changes_nothing() {
    let mut a = applier();
    a.apply(cmd(Op::Create { obj: pod_obj("web") }));
    let before = dump_pods(&a);
    a.apply(cmd(Op::ReplaceSpec { name: "web".into(), obj: pod_obj("web") }));
    a.apply(cmd(Op::Create { obj: Err("bad".into()) }));
    assert_eq!(dump_pods(&a), before);
    assert_eq!(a.db.current_rv(), 1);
}

#[test]
fn kinds_are_found_by_their_prefix() {
    assert_eq!(Kind::parse("pods/"), Some(Kind::Pods));
    assert_eq!(Kind::parse("replicasets/"), Some(Kind::ReplicaSets));
    assert_eq!(Kind::parse("nodes/"), Some(Kind::Nodes));
    assert_eq!(Kind::parse("services/"), Some(Kind::Services));
    assert_eq!(Kind::parse("endpoints/"), Some(Kind::Endpoints));
}

#[test]
fn only_the_leader_takes_writes() {
    let mut apis = HashMap::new();
    apis.insert(2, "http://two:8080".to_string());
    assert!(ensure_leader(1, Some(1), &apis).is_ok());
    assert_eq!(
        ensure_leader(1, Some(2), &apis),
        Err(ApiError::Redirect("http://two:8080".into()))
    );
    assert_eq!(
        ensure_leader(1, Some(3), &apis),
        Err(ApiError::Internal("unknown leader 3".into()))
    );
    assert_eq!(
        ensure_leader(1, None, &apis),
        Err(ApiError::Internal("no leader elected yet; retry".into()))
    );
}

#[test]
fn a_write_is_answered_with_its_outcome() {
    assert_eq!(
        answer_write(Some(ApplyOutcome::NotFound("x".into()))),
        Err(ApiError::NotFound("x".into()))
    );
    assert_eq!(
        answer_write(Some(ApplyOutcome::Conflict { current: "1".into(), provided: "2".into() })),
        Err(ApiError::Conflict { current: "1".into(), provided: "2".into() })
    );
    assert_eq!(
        answer_write(None),
        Err(ApiError::Internal("write timed out (not committed)".into()))
    );
    let p = pod_obj("web").unwrap();
    assert_eq!(
        answer_write(Some(ApplyOutcome::Done(Object::Pod(p.clone())))),
        Ok(Object::Pod(p))
    );
}

#[test]
fn a_bare_redirect_gets_the_path() {
    assert_eq!(
        redirect_location("http://two:8080", "/api/v1/pods?x=1"),
        "http://two:8080/api/v1/pods?x=1"
    );
    assert_eq!(redirect_location("http://two:8080/", "/a"), "http://two:8080/");
    assert_eq!(redirect_location("two:8080", "/a"), "two:8080");
}

#[test]
fn peers_are_read_from_a_list() {
    let peers = parse_peers("2=http://two,3=http://three?a=b,,").unwrap();
    assert_eq!(peers.len(), 2);
    assert_eq!(peers[&3], "http://three?a=b");
    assert_eq!(parse_peers("").unwrap().len(), 0);
    assert_eq!(parse_peers("2=a,2=b").unwrap()[&2], "b");
    let e = parse_peers("2=a,three").unwrap_err();
    assert_eq!(e, PeerError::Malformed("three".into()));
    assert_eq!(e.message(), "bad peer entry \"three\" (want id=url)");
    let e = parse_peers("x=a,three").unwrap_err();
    assert_eq!(e, PeerError::BadId("x".into()));
    assert_eq!(e.message(), "invalid digit found in string");
    let e = parse_peers("=a").unwrap_err();
    assert_eq!(e, PeerError::BadId("".into()));
    assert_eq!(e.message(), "cannot parse integer from empty string");
    let e = parse_peers("18446744073709551616=a").unwrap_err();
    assert_eq!(e.message(), "number too large to fit in target type");
}
