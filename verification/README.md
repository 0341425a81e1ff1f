# my_k8s

A small Kubernetes-style cluster manager. The library under `src/` is written in
Verus: what each function does is stated in its contract, and proved. The
programs under `app/` are ordinary Rust around it.

## The library

| Module | What it holds |
| --- | --- |
| `pod`, `replicaset`, `node`, `service`, `endpoints`, `meta`, `labels` | the objects |
| `names`, `order`, `text`, `clock`, `digest`, `duplicate` | maps by name, sorting, texts, times, hashes, copies |
| `apiserver` | storage with versions, watches, replicated commands, requests and their answers |
| `raft` | the consensus core: log, state machine, storage, shell; and the proofs that terms have one leader, logs match and committed entries stay |
| `controller` | rounds over ReplicaSets and endpoints, and the work queue |
| `scheduler` | which node a Pod goes to |
| `kube_proxy` | the packet filter's rules for services |
| `ipam` | the addresses of a node's Pods |
| `runtime`, `store`, `reconciler`, `watcher` | the node agent: bundles, sandboxes, restarts, manifests |
| `client`, `kubectl` | paths and errors of the API, and what the command line shows |

Each type has a mathematical view (`deep_view`), and contracts speak of views.
Properties that span functions are public proof functions, next to what they are
about: their comments begin with "Law". The laws of the consensus core are in
`raft/laws.rs`, `raft/applying.rs` and `raft/cluster.rs`; those on whole rounds
over a ReplicaSet, against a server, are in `controller/convergence.rs`.

Rounds of the controllers and the scheduler are machines: a function from the
stage a round is in and the server's reply to the next request and stage. The
node agent takes a runtime as a `RuntimeClient`; its contracts say which calls
are made, in which order, and what their replies lead to.

A few calls leave the verified code: `chrono` for times, `uuid` for identities,
and three functions of the standard library on strings. Each stands in a function
of its own, whose comment says what is taken on trust.

## The programs

`app/` holds the JSON forms of the objects, the HTTP server and client, the disk,
the container runtime and the loops. Its subcommands are `apiserver`,
`controller-manager`, `scheduler`, `kube-proxy`, `kubelet`, `kubectl`,
`raft-demo` and `scratch`.
