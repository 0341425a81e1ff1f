//! The service proxy's rules.

use std::collections::hash_map::DefaultHasher;
use std::hash::{Hash, Hasher};

use my_k8s::endpoints::{EndpointAddress, Endpoints};
use my_k8s::kube_proxy::{
    creates_chain, ensure_base_chains, nat_argv, plan_rules, probability, sep_chain_name,
    short_hash, svc_chain_name, worth_a_warning, SetupStep, KUBE_SERVICES,
};
use my_k8s::labels::Labels;
use my_k8s::meta::ObjectMeta;
use my_k8s::service::{Service, ServiceSpec};

fn svc(name: &str, cluster_ip: &str, port: u16, target_port: u16) -> Service {
    Service {
        api_version: "v1".into(),
        kind: "Service".into(),
        metadata: ObjectMeta {
            name: name.into(),
            ..Default::default()
        },
        spec: ServiceSpec {
            selector: Labels::new(),
            port,
            target_port,
            cluster_ip: Some(cluster_ip.into()),
        },
    }
}

fn eps(name: &str, ips: &[&str], port: u16) -> Endpoints {
    Endpoints {
        api_version: "v1".into(),
        kind: "Endpoints".into(),
        metadata: ObjectMeta {
            name: name.into(),
            ..Default::default()
        },
        addresses: ips
            .iter()
            .map(|ip| EndpointAddress {
                ip: (*ip).into(),
                port,
            })
            .collect(),
    }
}

/// Render each argument list back to a single space-joined string.
fn lines(rules: &[Vec<String>]) -> Vec<String> {
    rules.iter().map(|r| r.join(" ")).collect()
}

#[test]
fn always_flushes_kube_services_first() {
    let rules = plan_rules(&vec![], &vec![]);
    assert_eq!(rules[0], vec!["-F", "KUBE-SERVICES"]);
}

#[test]
fn service_with_no_endpoints_is_skipped() {
    let rules = plan_rules(&vec![svc("web", "10.96.0.1", 80, 8080)], &vec![]);
    // Only the top-level flush: no chains, no DNAT.
    let text = lines(&rules).join("\n");
    assert!(!text.contains("KUBE-SVC-"), "got: {text}");
    assert!(!text.contains("DNAT"), "got: {text}");
}

#[test]
fn service_without_clusterip_is_skipped() {
    let mut s = svc("web", "10.96.0.1", 80, 8080);
    s.spec.cluster_ip = None;
    let rules = plan_rules(&vec![s], &vec![eps("web", &["10.244.0.2"], 8080)]);
    let text = lines(&rules).join("\n");
    assert!(!text.contains("KUBE-SVC-"), "no address, no rules: {text}");
}

#[test]
fn single_endpoint_uses_catch_all_dnat_no_statistic() {
    let rules = plan_rules(
        &vec![svc("web", "10.96.0.1", 80, 8080)],
        &vec![eps("web", &["10.244.0.2"], 8080)],
    );
    let text = lines(&rules);
    let joined = text.join("\n");

    // The backend's chain rewrites to the pod's ip:targetPort.
    assert!(
        joined.contains("DNAT --to-destination 10.244.0.2:8080"),
        "got: {joined}"
    );
    // It is marked for masquerading.
    assert!(joined.contains("-j KUBE-MARK-MASQ"), "got: {joined}");
    // One backend, so no statistic rule: the lone jump takes all.
    assert!(
        !joined.contains("statistic"),
        "single endpoint needs no probability: {joined}"
    );
    // KUBE-SERVICES routes the address and port to the service's chain.
    assert!(
        text.iter().any(|l| l.contains("-A KUBE-SERVICES")
            && l.contains("-d 10.96.0.1")
            && l.contains("--dport 80")
            && l.contains("-j KUBE-SVC-")),
        "got: {joined}"
    );
}

#[test]
fn three_endpoints_get_declining_probabilities_and_catch_all() {
    let rules = plan_rules(
        &vec![svc("web", "10.96.0.1", 80, 8080)],
        &vec![eps("web", &["10.244.0.2", "10.244.0.3", "10.244.0.4"], 8080)],
    );
    let joined = lines(&rules).join("\n");

    // Declining probabilities 1/3, 1/2 for the first two; the last takes all.
    assert!(
        joined.contains("--probability 0.33333"),
        "first endpoint should be 1/3: {joined}"
    );
    assert!(
        joined.contains("--probability 0.50000"),
        "second endpoint should be 1/2: {joined}"
    );
    // Exactly two statistic rules for three endpoints.
    let stat_count = lines(&rules)
        .iter()
        .filter(|l| l.contains("statistic"))
        .count();
    assert_eq!(stat_count, 2, "N endpoints, N-1 statistic rules");

    // All three pods get a DNAT.
    for ip in ["10.244.0.2", "10.244.0.3", "10.244.0.4"] {
        assert!(
            joined.contains(&format!("DNAT --to-destination {ip}:8080")),
            "missing DNAT for {ip}: {joined}"
        );
    }
}

#[test]
fn chain_names_stay_within_iptables_limit() {
    // 28-char chain-name cap; ours are prefix(9) + 16 hex = 25.
    let s = svc_chain_name("a-very-long-service-name-that-would-overflow");
    let e = sep_chain_name("a-very-long-service-name", "10.244.255.254", 65535);
    assert!(s.len() <= 28, "svc chain {s:?} too long ({})", s.len());
    assert!(e.len() <= 28, "sep chain {e:?} too long ({})", e.len());
    // Deterministic: same inputs, same name.
    assert_eq!(s, svc_chain_name("a-very-long-service-name-that-would-overflow"));
}

#[test]
fn chain_names_hash_like_std() {
    for s in ["", "web", "a/10.0.0.1:80", "größe"] {
        let mut h = DefaultHasher::new();
        s.hash(&mut h);
        assert_eq!(short_hash(s), format!("{:016X}", h.finish()));
    }
    let mut h = DefaultHasher::new();
    "web/10.244.0.2:8080".hash(&mut h);
    assert_eq!(
        sep_chain_name("web", "10.244.0.2", 8080),
        format!("KUBE-SEP-{:016X}", h.finish())
    );
}

#[test]
fn shares_are_written_like_floats() {
    for k in 2usize..3000 {
        assert_eq!(probability(k), format!("{:.5}", 1.0 / k as f64), "1/{k}");
    }
    for k in [8000usize, 40000, 99999, 100000, 199999, 200000, 200001, 1 << 40] {
        assert_eq!(probability(k), format!("{:.5}", 1.0 / k as f64), "1/{k}");
    }
    assert_eq!(probability(3), "0.33333");
    assert_eq!(probability(64), "0.01562");
}

#[test]
fn a_ruleset_in_full() {
    let rules = plan_rules(
        &vec![svc("web", "10.96.0.1", 80, 8080)],
        &vec![
            eps("other", &["10.244.0.9"], 1),
            eps("web", &["10.244.0.2", "10.244.0.3"], 8080),
        ],
    );
    let s = svc_chain_name("web");
    let a = sep_chain_name("web", "10.244.0.2", 8080);
    let b = sep_chain_name("web", "10.244.0.3", 8080);
    assert_eq!(
        lines(&rules),
        vec![
            "-F KUBE-SERVICES".to_string(),
            format!("-N {s}"),
            format!("-F {s}"),
            format!("-N {a}"),
            format!("-F {a}"),
            format!("-A {a} -j KUBE-MARK-MASQ"),
            format!("-A {a} -p tcp -j DNAT --to-destination 10.244.0.2:8080"),
            format!("-A {s} -m statistic --mode random --probability 0.50000 -j {a}"),
            format!("-N {b}"),
            format!("-F {b}"),
            format!("-A {b} -j KUBE-MARK-MASQ"),
            format!("-A {b} -p tcp -j DNAT --to-destination 10.244.0.3:8080"),
            format!("-A {s} -j {b}"),
            format!("-A KUBE-SERVICES -d 10.96.0.1 -p tcp --dport 80 -j {s}"),
        ]
    );
}

#[test]
fn the_base_setup_hooks_the_chains() {
    let steps = ensure_base_chains();
    assert_eq!(steps.len(), 6);
    match &steps[0] {
        SetupStep::Tolerate { argv, words } => {
            assert_eq!(argv.join(" "), "iptables -t nat -N KUBE-SERVICES");
            assert_eq!(words, "Chain already exists");
        }
        other => panic!("unexpected {other:?}"),
    }
    match &steps[3] {
        SetupStep::Ensure { check, add } => {
            assert_eq!(check.join(" "), "iptables -t nat -C PREROUTING -j KUBE-SERVICES");
            assert_eq!(add.join(" "), "iptables -t nat -A PREROUTING -j KUBE-SERVICES");
        }
        other => panic!("unexpected {other:?}"),
    }
    match &steps[5] {
        SetupStep::Ensure { add, .. } => assert_eq!(
            add.join(" "),
            "iptables -t nat -A POSTROUTING -m mark --mark 0x4000/0x4000 -j MASQUERADE"
        ),
        other => panic!("unexpected {other:?}"),
    }
}

#[test]
fn only_new_chains_may_exist_already() {
    assert!(creates_chain(&vec!["-N".into(), "X".into()]));
    assert!(!creates_chain(&vec!["-F".into(), KUBE_SERVICES.into()]));
    assert!(!creates_chain(&vec![]));
    assert_eq!(
        nat_argv(vec!["-N".into(), "X".into()]).join(" "),
        "iptables -t nat -N X"
    );
    assert!(!worth_a_warning("iptables: Chain already exists.", "Chain already exists"));
    assert!(worth_a_warning("permission denied", "Chain already exists"));
    assert!(!worth_a_warning("permission denied", ""));
}
