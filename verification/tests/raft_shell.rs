//! Shells around the consensus core, and replicated stores on top of them.

use std::collections::{BTreeMap, HashMap, HashSet, VecDeque};

use my_k8s::apiserver::applier::Applier;
use my_k8s::apiserver::command::{ApplyOutcome, KindOp, Object, Op, StoreCommand};
use my_k8s::apiserver::handlers::{bind_command, stamped_create_command, ApiError, Binding};
use my_k8s::apiserver::raft_glue::{answer_write, ensure_leader};
use my_k8s::pod::{Container, Pod, PodMetadata, PodSpec};
use my_k8s::raft::log::{LogEntry, NodeId};
use my_k8s::raft::machine::Event;
use my_k8s::raft::message::Message;
use my_k8s::raft::node::{RaftShell, Work, XorShift};
use my_k8s::raft::storage::{HardState, RaftStorage};
use my_k8s::raft::transport::message_url;

struct Shells {
    shells: BTreeMap<NodeId, RaftShell>,
    storages: BTreeMap<NodeId, RaftStorage>,
    inbox: VecDeque<(NodeId, NodeId, Message)>,
    down: HashSet<NodeId>,
    applied: BTreeMap<NodeId, Vec<LogEntry>>,
    rejected: Vec<Option<NodeId>>,
}

impl Shells {
    fn spawn(n: u64) -> Shells {
        let ids: Vec<NodeId> = (1..=n).collect();
        let mut cluster = Shells {
            shells: BTreeMap::new(),
            storages: BTreeMap::new(),
            inbox: VecDeque::new(),
            down: HashSet::new(),
            applied: BTreeMap::new(),
            rejected: vec![],
        };
        for &id in &ids {
            let peers: Vec<NodeId> = ids.iter().copied().filter(|p| *p != id).collect();
            let shell = RaftShell::new(id, peers, HardState::default(), vec![], 0xC0FFEE + id);
            cluster.shells.insert(id, shell);
            cluster.storages.insert(id, RaftStorage::open());
            cluster.applied.insert(id, vec![]);
        }
        cluster
    }

    fn handle(&mut self, id: NodeId, event: Event) {
        if self.down.contains(&id) {
            return;
        }
        let shell = self.shells.get_mut(&id).unwrap();
        assert!(shell.fits(&event));
        for work in shell.handle(event) {
            let storage = self.storages.get_mut(&id).unwrap();
            match work {
                Work::SaveHardState(hs) => storage.save_hard_state(&hs),
                Work::TruncateFrom(index) => storage.truncate_from(index),
                Work::AppendEntries(entries) => storage.append_entries(&entries),
                Work::Send(to, msg) => self.inbox.push_back((id, to, msg)),
                Work::Apply(entry) => self.applied.get_mut(&id).unwrap().push(entry),
                Work::ReportRejected(hint) => self.rejected.push(hint),
            }
        }
    }

    fn deliver(&mut self) {
        while let Some((from, to, msg)) = self.inbox.pop_front() {
            self.handle(to, Event::Message(from, msg));
        }
    }

    fn tick(&mut self) {
        let ids: Vec<NodeId> = self.shells.keys().copied().collect();
        for id in ids {
            self.handle(id, Event::Tick);
            self.deliver();
        }
    }

    /// Ticks until every live node agrees on a live leader.
    fn await_leader(&mut self) -> NodeId {
        for _ in 0..1000 {
            let views: Vec<Option<NodeId>> = self
                .shells
                .iter()
                .filter(|(id, _)| !self.down.contains(id))
                .map(|(_, s)| s.leader_hint())
                .collect();
            if let Some(lead) = views[0] {
                if views.iter().all(|v| *v == Some(lead)) && !self.down.contains(&lead) {
                    return lead;
                }
            }
            self.tick();
        }
        panic!("no leader emerged in time");
    }

    fn propose(&mut self, id: NodeId, command: &[u8]) {
        self.handle(id, Event::Propose(command.to_vec()));
        self.deliver();
        for _ in 0..10 {
            self.tick();
        }
    }
}

#[test]
fn three_shells_elect_and_replicate_a_command() {
    let mut nodes = Shells::spawn(3);
    let leader = nodes.await_leader();

    // Propose through the leader; the entry must apply on ALL THREE.
    nodes.propose(leader, b"hello-raft");

    for (id, entries) in &nodes.applied {
        assert_eq!(entries[0].command, b"hello-raft", "node {id}");
        assert_eq!(entries[0].index, 1, "node {id}");
        // What was applied is durable.
        assert_eq!(nodes.storages[id].load_log(), *entries);
    }
}

#[test]
fn leader_crash_triggers_reelection_and_cluster_still_commits() {
    let mut nodes = Shells::spawn(3);
    let old = nodes.await_leader();

    // Kill the leader's shell outright.
    nodes.down.insert(old);

    // The two survivors elect a NEW leader (majority of 3 still alive).
    let new = nodes.await_leader();
    assert_ne!(new, old, "a survivor must take over");

    // And the cluster still accepts + commits proposals.
    nodes.propose(new, b"after");
    for (id, entries) in nodes.applied.iter().filter(|(id, _)| **id != old) {
        assert_eq!(entries[0].command, b"after", "node {id}");
    }
}

#[test]
fn a_follower_points_at_the_leader() {
    let mut nodes = Shells::spawn(3);
    let leader = nodes.await_leader();
    let follower = (1..=3).find(|id| *id != leader).unwrap();
    nodes.propose(follower, b"misplaced");
    assert_eq!(nodes.rejected, vec![Some(leader)]);
    assert!(nodes.applied.values().all(|a| a.is_empty()));
}

#[test]
fn a_restarted_shell_keeps_its_term_and_log() {
    let mut nodes = Shells::spawn(3);
    let leader = nodes.await_leader();
    nodes.propose(leader, b"kept");
    for id in 1..=3 {
        let storage = &nodes.storages[&id];
        let peers = (1..=3).filter(|p| *p != id).collect();
        let shell = RaftShell::new(id, peers, storage.load_hard_state(), storage.load_log(), id);
        nodes.shells.insert(id, shell);
        nodes.applied.insert(id, vec![]);
    }
    let leader = nodes.await_leader();
    nodes.propose(leader, b"new");
    for (id, entries) in &nodes.applied {
        let commands: Vec<&[u8]> = entries.iter().map(|e| e.command.as_slice()).collect();
        assert_eq!(commands, vec![&b"kept"[..], b"new"], "node {id}");
    }
}

#[test]
fn timeouts_are_drawn_from_a_scrambled_state() {
    let mut rng = XorShift::new(1);
    let x = 1u64;
    let x = x ^ (x << 13);
    let x = x ^ (x >> 7);
    let x = x ^ (x << 17);
    assert_eq!(rng.next(), x);
    let mut zero = XorShift::new(0);
    assert_eq!(zero.next(), x, "a zero state would stay zero");
}

#[test]
fn messages_are_posted_with_their_sender() {
    assert_eq!(message_url("http://two", 12), "http://two/raft/message?from=12");
}

fn make_pod(name: &str) -> Pod {
    Pod {
        api_version: "v1".into(),
        kind: "Pod".into(),
        metadata: PodMetadata {
            name: name.into(),
            ..Default::default()
        },
        spec: PodSpec {
            containers: vec![Container {
                name: "c".into(),
                image: "busybox".into(),
                command: vec!["sleep".into()],
            }],
            node_name: None,
        },
        status: None,
    }
}

/// A write, as each replica finds it in its log.
type Plan = Box<dyn Fn() -> KindOp>;

fn create(name: &str) -> Plan {
    let (pod, uid) = (make_pod(name), format!("uid-{name}"));
    Box::new(move || stamped_create_command(pod.clone(), uid.clone(), "t".into()).unwrap())
}

fn delete(name: &str, rv: &str) -> Plan {
    let (name, rv) = (name.to_string(), rv.to_string());
    Box::new(move || {
        KindOp::Pods(Op::Delete {
            name: name.clone(),
            rv: rv.clone(),
        })
    })
}

/// Replicas: shells, with a store behind each.
struct Replicas {
    shells: Shells,
    stores: BTreeMap<NodeId, Applier>,
    /// The commands of the log are the numbers of these.
    plans: Vec<Plan>,
    done: BTreeMap<NodeId, usize>,
}

impl Replicas {
    fn spawn(n: u64) -> Replicas {
        Replicas {
            shells: Shells::spawn(n),
            plans: vec![],
            stores: (1..=n).map(|id| (id, Applier::new())).collect(),
            done: (1..=n).map(|id| (id, 0)).collect(),
        }
    }

    /// A write sent to one replica, which sends it on if it does not lead.
    fn write(&mut self, via: NodeId, plan: Plan) -> Result<Object, ApiError> {
        let urls: HashMap<NodeId, String> = (1..=3).map(|id| (id, format!("{id}"))).collect();
        let hint = self.shells.shells[&via].leader_hint();
        let at = match ensure_leader(via, hint, &urls) {
            Ok(()) => via,
            Err(ApiError::Redirect(url)) => url.parse().unwrap(),
            Err(e) => return Err(e),
        };
        self.plans.push(plan);
        self.shells.propose(at, &[self.plans.len() as u8 - 1]);
        let mut answer: Option<ApplyOutcome> = None;
        for (id, store) in self.stores.iter_mut() {
            let applied = &self.shells.applied[id];
            while self.done[id] < applied.len() {
                let entry = &applied[self.done[id]];
                let out = store.apply(StoreCommand {
                    id: 0,
                    op: self.plans[entry.command[0] as usize](),
                });
                *self.done.get_mut(id).unwrap() += 1;
                if *id == at {
                    answer = Some(out);
                }
            }
        }
        answer_write(answer)
    }

    fn dump(&self, id: NodeId) -> Vec<(String, Option<String>)> {
        let store = &self.stores[&id];
        let (mut pods, _) = store.pods.list(&store.db);
        pods.sort_by(|a, b| a.metadata.name.cmp(&b.metadata.name));
        pods.into_iter()
            .map(|p| (p.metadata.name, p.metadata.resource_version))
            .collect()
    }
}

#[test]
fn three_replicas_elect_a_leader() {
    let mut replicas = Replicas::spawn(3);
    let leader = replicas.shells.await_leader();
    assert!((1..=3).contains(&leader));
}

#[test]
fn three_replicas_converge_and_survive_leader_kill() {
    let mut replicas = Replicas::spawn(3);
    let leader = replicas.shells.await_leader();

    // Write via EVERY replica in turn. A follower redirects to the leader.
    for i in 0..3 {
        replicas.write(i + 1, create(&format!("pod-{i}"))).unwrap();
    }
    assert_eq!(replicas.dump(1).len(), 3);
    assert_eq!(replicas.dump(1), replicas.dump(2), "replica 1 vs 2 diverged");
    assert_eq!(replicas.dump(2), replicas.dump(3), "replica 2 vs 3 diverged");

    // Kill the leader; the survivors must keep accepting writes.
    replicas.shells.down.insert(leader);
    replicas.shells.await_leader();
    let survivors: Vec<NodeId> = (1..=3).filter(|id| *id != leader).collect();
    replicas.write(survivors[0], create("after-kill")).unwrap();
    for id in survivors {
        assert!(replicas.stores[&id].pods.get("after-kill").is_some());
    }
}

#[test]
fn pod_crud_through_the_raft_log() {
    let mut r = Replicas::spawn(1);
    assert_eq!(
        r.write(1, create("web")),
        Err(ApiError::Internal("no leader elected yet; retry".into()))
    );
    r.shells.await_leader();

    // CREATE flows through propose, commit and apply.
    let created = match r.write(1, create("web")).unwrap() {
        Object::Pod(p) => p,
        other => panic!("unexpected {other:?}"),
    };
    assert_eq!(created.metadata.name, "web");
    assert!(created.metadata.uid.is_some(), "leader stamped a uid");
    let rv1 = created.metadata.resource_version.clone().unwrap();

    // READ (local) sees the committed pod.
    let got = r.stores[&1].pods.get("web").unwrap();
    assert_eq!(got.metadata.uid, created.metadata.uid);

    // Duplicate CREATE: the verdict travels back from apply.
    assert!(r.write(1, create("web")).is_err());

    // BIND (a read and a write through the log) sets nodeName.
    let binding = Binding {
        node_name: "node-a".into(),
    };
    let (name, pod) = match bind_command(&r.stores[&1], "web", binding).unwrap() {
        KindOp::Pods(Op::ReplaceSpec { name, obj }) => (name, obj.unwrap()),
        other => panic!("unexpected {other:?}"),
    };
    let bind = Box::new(move || {
        KindOp::Pods(Op::ReplaceSpec {
            name: name.clone(),
            obj: Ok(pod.clone()),
        })
    });
    let bound = match r.write(1, bind).unwrap() {
        Object::Pod(p) => p,
        other => panic!("unexpected {other:?}"),
    };
    assert_eq!(bound.spec.node_name.as_deref(), Some("node-a"));

    // DELETE with the current rv.
    let rv = r.stores[&1].pods.get("web").unwrap().metadata.resource_version.unwrap();
    r.write(1, delete("web", &rv)).unwrap();
    assert!(r.stores[&1].pods.get("web").is_none());

    // Stale-rv delete: a conflict from apply.
    r.write(1, create("web2")).unwrap();
    assert!(r.write(1, delete("web2", "999")).is_err());

    // The version advanced across the writes.
    let now = r.stores[&1].pods.get("web2").unwrap().metadata.resource_version;
    assert_ne!(Some(rv1), now);
}
