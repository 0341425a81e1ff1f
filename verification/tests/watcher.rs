//! Manifests in a directory.

use my_k8s::pod::{Container, Pod, PodMetadata, PodSpec};
use my_k8s::watcher::{is_yaml_file, scan, ManifestFile};

fn pod(name: &str) -> Pod {
    Pod {
        api_version: "v1".into(),
        kind: "Pod".into(),
        metadata: PodMetadata {
            name: name.into(),
            ..Default::default()
        },
        spec: PodSpec {
            containers: vec![Container {
                name: "c1".into(),
                image: "busybox".into(),
                command: vec!["sleep".into(), "infinity".into()],
            }],
            node_name: None,
        },
        status: None,
    }
}

fn file(name: &str, pod: Option<Pod>) -> ManifestFile {
    ManifestFile {
        name: name.into(),
        pod,
    }
}

#[test]
fn empty_dir_returns_empty_map() {
    assert!(scan(&vec![]).is_empty());
}

#[test]
fn parses_single_pod_yaml() {
    let pods = scan(&vec![file("web.yaml", Some(pod("web")))]);
    assert_eq!(pods.len(), 1);
    assert!(pods.contains_key("web"));
}

#[test]
fn parses_multiple_pod_yamls() {
    let pods = scan(&vec![
        file("web.yaml", Some(pod("web"))),
        file("worker.yaml", Some(pod("worker"))),
    ]);
    assert_eq!(pods.len(), 2);
    assert!(pods.contains_key("web"));
    assert!(pods.contains_key("worker"));
}

#[test]
fn accepts_both_yaml_and_yml_extensions() {
    let pods = scan(&vec![
        file("web.yaml", Some(pod("web"))),
        file("worker.yml", Some(pod("worker"))),
    ]);
    assert_eq!(pods.len(), 2);
}

#[test]
fn skips_non_yaml_files() {
    let pods = scan(&vec![
        file("web.yaml", Some(pod("web"))),
        file("README.md", Some(pod("readme"))),
        file("notes.txt", None),
    ]);
    assert_eq!(pods.len(), 1);
    assert!(pods.contains_key("web"));
}

#[test]
fn skips_malformed_yaml_but_continues() {
    let pods = scan(&vec![file("broken.yaml", None), file("good.yaml", Some(pod("good")))]);
    assert_eq!(pods.len(), 1);
    assert!(pods.contains_key("good"));
}

#[test]
fn last_file_wins_on_duplicate_pod_name() {
    let mut later = pod("dup");
    later.spec.node_name = Some("later".into());
    let pods = scan(&vec![
        file("a.yaml", Some(pod("dup"))),
        file("b.yaml", Some(later.clone())),
    ]);
    assert_eq!(pods.len(), 1, "both files had the same Pod name");
    assert_eq!(pods.get("dup"), Some(&later));
}

#[test]
fn extensions_are_those_of_paths() {
    for name in [
        "a.yaml", "a.yml", "a.b.yaml", ".yaml", "yaml", "a.", "..", ".", "", "a.YAML", "..yaml",
        ".a.yml", "a.yaml.bak", "\u{e9}.yml",
    ] {
        let ext = std::path::Path::new(name).extension().and_then(|e| e.to_str());
        let expected = matches!(ext, Some("yaml") | Some("yml"));
        assert_eq!(is_yaml_file(name), expected, "{name}");
    }
}
