//! What the command line tool decides and shows.

use vstd::prelude::*;

use crate::apiserver::watch::WatchEventType;
use crate::clock;
use crate::clock::Timestamp;
use crate::duplicate::Duplicate;
use crate::meta;
use crate::meta::{MetaView, ResourceMeta};
use crate::node;
use crate::node::{Node, NodeView};
use crate::pod::{ContainerStatusView, Pod, PodPhase, PodView};
use crate::replicaset::{ReplicaSet, ReplicaSetView};
use crate::text;

verus! {

/// How old a node's last report may be for the node to be shown as ready, in
/// seconds: as old as the scheduler lets it be.
pub const READY_WINDOW_SECS: i64 = 30;

/// What a manifest can be applied as.
#[derive(Debug, Clone, Copy, PartialEq, Eq, Structural)]
pub enum ManifestKind {
    Pod,
    ReplicaSet,
}

pub open spec fn kind_named(kind: Seq<char>) -> Option<ManifestKind> {
    if kind == "Pod"@ {
        Some(ManifestKind::Pod)
    } else if kind == "ReplicaSet"@ {
        Some(ManifestKind::ReplicaSet)
    } else {
        None
    }
}

/// Finds out what a manifest is applied as, or says why it is not.
pub fn manifest_kind(kind: &str) -> (r: Result<ManifestKind, String>)
    ensures
        match r {
            Ok(k) => kind_named(kind@) == Some(k),
            Err(m) => kind_named(kind@) is None && m@ == "unsupported kind "@
                + text::quoted_chars(kind@) + "; only Pod and ReplicaSet are supported"@,
        },
{
    if text::same(kind, "Pod") {
        return Ok(ManifestKind::Pod);
    }
    if text::same(kind, "ReplicaSet") {
        return Ok(ManifestKind::ReplicaSet);
    }
    let mut m = "unsupported kind ".to_owned();
    m.append(text::quoted(kind).as_str());
    m.append("; only Pod and ReplicaSet are supported");
    Err(m)
}

/// What can be shown or deleted.
#[derive(Debug, Clone, Copy, PartialEq, Eq, Structural)]
pub enum Resource {
    Pods,
    ReplicaSets,
    Nodes,
}

pub open spec fn resource_named(word: Seq<char>) -> Option<Resource> {
    if word == "pod"@ || word == "pods"@ {
        Some(Resource::Pods)
    } else if word == "rs"@ || word == "replicaset"@ || word == "replicasets"@ {
        Some(Resource::ReplicaSets)
    } else if word == "node"@ || word == "nodes"@ {
        Some(Resource::Nodes)
    } else {
        None
    }
}

pub open spec fn unsupported_chars(word: Seq<char>) -> Seq<char> {
    "unsupported resource "@ + text::quoted_chars(word)
        + "; supported: pod(s), replicaset(s)/rs"@
}

fn unsupported(word: &str) -> (m: String)
    ensures
        m@ == unsupported_chars(word@),
{
    let mut m = "unsupported resource ".to_owned();
    m.append(text::quoted(word).as_str());
    m.append("; supported: pod(s), replicaset(s)/rs");
    m
}

/// Finds out what is to be shown.
pub fn shown_resource(word: &str) -> (r: Result<Resource, String>)
    ensures
        match r {
            Ok(kind) => resource_named(word@) == Some(kind),
            Err(m) => resource_named(word@) is None && m@ == unsupported_chars(word@),
        },
{
    if text::same(word, "pod") || text::same(word, "pods") {
        Ok(Resource::Pods)
    } else if text::same(word, "rs") || text::same(word, "replicaset") || text::same(
        word,
        "replicasets",
    ) {
        Ok(Resource::ReplicaSets)
    } else if text::same(word, "node") || text::same(word, "nodes") {
        Ok(Resource::Nodes)
    } else {
        Err(unsupported(word))
    }
}

/// Finds out what is to be deleted. Nodes are not deleted by hand.
pub fn deleted_resource(word: &str) -> (r: Result<Resource, String>)
    ensures
        match r {
            Ok(kind) => resource_named(word@) == Some(kind) && kind != Resource::Nodes,
            Err(m) => (resource_named(word@) is None || resource_named(word@) == Some(
                Resource::Nodes,
            )) && m@ == unsupported_chars(word@),
        },
{
    match shown_resource(word) {
        Ok(Resource::Nodes) => Err(unsupported(word)),
        other => other,
    }
}

/// What applying a manifest writes: the object is created, or takes the place
/// of the stored one at the version that one has.
#[derive(Debug, Clone, PartialEq)]
pub enum Upsert<T> {
    Create(T),
    Replace(T),
}

pub ghost enum UpsertView<V> {
    Create(V),
    Replace(V),
}

pub open spec fn upsert_of<T: DeepView>(u: Upsert<T>) -> UpsertView<T::V> {
    match u {
        Upsert::Create(o) => UpsertView::Create(o.deep_view()),
        Upsert::Replace(o) => UpsertView::Replace(o.deep_view()),
    }
}

/// An object at the version of another one.
pub open spec fn at_version_of<T: ResourceMeta>(v: T::V, existing: T::V) -> T::V {
    T::with_meta(
        v,
        MetaView {
            resource_version: T::meta_of(existing).resource_version,
            ..T::meta_of(v)
        },
    )
}

/// Decides how a manifest is applied, given what is stored under its name.
pub fn upsert<T: ResourceMeta>(wanted: T, existing: Option<T>) -> (u: Upsert<T>)
    ensures
        upsert_of(u) == (match existing.deep_view() {
            Some(e) => UpsertView::Replace(at_version_of::<T>(wanted.deep_view(), e)),
            None => UpsertView::Create(wanted.deep_view()),
        }),
{
    match existing {
        Some(e) => {
            let mut wanted = wanted;
            let rv = e.meta().resource_version.duplicate();
            let ghost was = wanted.deep_view();
            let m = wanted.meta_mut();
            m.resource_version = rv;
            assert(wanted.deep_view() == at_version_of::<T>(was, e.deep_view()));
            Upsert::Replace(wanted)
        },
        None => Upsert::Create(wanted),
    }
}

pub open spec fn phase_chars(phase: PodPhase) -> Seq<char> {
    match phase {
        PodPhase::Pending => "Pending"@,
        PodPhase::Running => "Running"@,
        PodPhase::Succeeded => "Succeeded"@,
        PodPhase::Failed => "Failed"@,
        PodPhase::Unknown => "Unknown"@,
    }
}

/// The phase that a Pod is shown in: pending, as long as nothing was reported.
pub open spec fn phase_shown(pod: PodView) -> Seq<char> {
    match pod.status {
        Some(s) => phase_chars(s.phase),
        None => phase_chars(PodPhase::Pending),
    }
}

pub fn phase_str(pod: &Pod) -> (s: &'static str)
    ensures
        s@ == phase_shown(pod.deep_view()),
{
    match &pod.status {
        Some(status) => match status.phase {
            PodPhase::Pending => "Pending",
            PodPhase::Running => "Running",
            PodPhase::Succeeded => "Succeeded",
            PodPhase::Failed => "Failed",
            PodPhase::Unknown => "Unknown",
        },
        None => "Pending",
    }
}

/// An age in the largest unit that it fills; one that lies in the future is
/// shown as none.
pub open spec fn age_chars(secs: int) -> Seq<char> {
    if secs < 0 {
        "0s"@
    } else if secs < 60 {
        text::decimal_chars(secs as nat) + "s"@
    } else if secs < 3600 {
        text::decimal_chars((secs / 60) as nat) + "m"@
    } else if secs < 86400 {
        text::decimal_chars((secs / 3600) as nat) + "h"@
    } else {
        text::decimal_chars((secs / 86400) as nat) + "d"@
    }
}

/// An age as it is shown, if it is known.
pub open spec fn age_shown(age: Option<i64>) -> Seq<char> {
    match age {
        Some(secs) => age_chars(secs as int),
        None => "<bad-ts>"@,
    }
}

pub fn age_text(age: Option<i64>) -> (s: String)
    ensures
        s@ == age_shown(age),
{
    match age {
        Some(secs) => {
            let mut s = String::new();
            if secs < 0 {
                return "0s".to_owned();
            }
            let secs: u64 = secs as u64;
            if secs < 60 {
                text::push_decimal(&mut s, secs);
                s.append("s");
            } else if secs < 3600 {
                text::push_decimal(&mut s, secs / 60);
                s.append("m");
            } else if secs < 86400 {
                text::push_decimal(&mut s, secs / 3600);
                s.append("h");
            } else {
                text::push_decimal(&mut s, secs / 86400);
                s.append("d");
            }
            assert(s@ =~= age_shown(age));
            s
        },
        None => "<bad-ts>".to_owned(),
    }
}

/// The age of something that was made at a written time.
pub open spec fn age_since(ts: Seq<char>, now: Timestamp) -> Seq<char> {
    match clock::rfc3339_timestamp(ts) {
        Some(at) => age_shown(clock::elapsed(now, at)),
        None => "<bad-ts>"@,
    }
}

pub fn age_str(ts: &str, now: Timestamp) -> (s: String)
    ensures
        s@ == age_since(ts@, now),
{
    match clock::parse_rfc3339(ts) {
        Some(at) => age_text(clock::seconds_between(now, at)),
        None => age_text(None),
    }
}

pub open spec fn age_of(m: MetaView, now: Timestamp) -> Seq<char> {
    match m.creation_timestamp {
        Some(ts) => age_since(ts, now),
        None => "<unknown>"@,
    }
}

fn age(m: &meta::ObjectMeta, now: Timestamp) -> (s: String)
    ensures
        s@ == age_of(m.deep_view(), now),
{
    match &m.creation_timestamp {
        Some(ts) => age_str(ts.as_str(), now),
        None => "<unknown>".to_owned(),
    }
}

/// Some cells of a table, each but the last filled up to the width of its
/// column.
pub open spec fn row(cells: Seq<Seq<char>>, widths: Seq<nat>) -> Seq<char>
    decreases widths.len(),
{
    if widths.len() == 0 || cells.len() == 0 {
        if cells.len() == 0 {
            Seq::empty()
        } else {
            cells[0]
        }
    } else {
        text::left_aligned(cells[0], widths[0]) + " "@ + row(cells.skip(1), widths.skip(1))
    }
}

pub open spec fn ready_count(statuses: Seq<ContainerStatusView>) -> nat {
    statuses.filter(|c: ContainerStatusView| c.ready).len()
}

/// The restarts of all containers; as many as can be counted.
pub open spec fn restarts_of(statuses: Seq<ContainerStatusView>) -> nat
    decreases statuses.len(),
{
    if statuses.len() == 0 {
        0
    } else {
        let sum = restarts_of(statuses.drop_last()) + statuses.last().restart_count;
        if sum > u32::MAX {
            u32::MAX as nat
        } else {
            sum as nat
        }
    }
}

pub open spec fn pod_cells(pod: PodView, now: Timestamp) -> Seq<Seq<char>> {
    let (ready, restarts) = match pod.status {
        Some(s) => (ready_count(s.container_statuses), restarts_of(s.container_statuses)),
        None => (0, 0),
    };
    seq![
        pod.metadata.name,
        phase_shown(pod),
        text::decimal_chars(ready) + "/"@ + text::decimal_chars(pod.spec.containers.len()),
        text::decimal_chars(restarts),
        age_of(pod.metadata, now),
    ]
}

pub open spec fn pod_widths() -> Seq<nat> {
    seq![20nat, 10, 8, 10]
}

fn before_cells(cell: &str, width: usize, rest: &str) -> (line: String)
    ensures
        line@ == text::left_aligned(cell@, width as nat) + " "@ + rest@,
{
    let mut line = String::new();
    text::push_left_aligned(&mut line, cell, width);
    line.append(" ");
    line.append(rest);
    assert(line@ =~= text::left_aligned(cell@, width as nat) + " "@ + rest@);
    line
}

fn three_cells(a: &str, wa: usize, b: &str, wb: usize, c: &str) -> (line: String)
    ensures
        line@ == row(seq![a@, b@, c@], seq![wa as nat, wb as nat]),
{
    proof {
        assert(seq![a@, b@, c@].skip(1) =~= seq![b@, c@]);
        assert(seq![wa as nat, wb as nat].skip(1) =~= seq![wb as nat]);
        assert(seq![b@, c@].skip(1) =~= seq![c@]);
        assert(seq![wb as nat].skip(1) =~= Seq::<nat>::empty());
        assert(row(seq![c@], Seq::<nat>::empty()) == c@);
    }
    let tail = before_cells(b, wb, c);
    assert(tail@ == row(seq![b@, c@], seq![wb as nat]));
    before_cells(a, wa, tail.as_str())
}

fn five_cells(
    a: &str,
    wa: usize,
    b: &str,
    wb: usize,
    c: &str,
    wc: usize,
    d: &str,
    wd: usize,
    e: &str,
) -> (line: String)
    ensures
        line@ == row(seq![a@, b@, c@, d@, e@], seq![wa as nat, wb as nat, wc as nat, wd as nat]),
{
    proof {
        assert(seq![a@, b@, c@, d@, e@].skip(1) =~= seq![b@, c@, d@, e@]);
        assert(seq![wa as nat, wb as nat, wc as nat, wd as nat].skip(1) =~= seq![
            wb as nat,
            wc as nat,
            wd as nat,
        ]);
        assert(seq![b@, c@, d@, e@].skip(1) =~= seq![c@, d@, e@]);
        assert(seq![wb as nat, wc as nat, wd as nat].skip(1) =~= seq![wc as nat, wd as nat]);
    }
    let tail = three_cells(c, wc, d, wd, e);
    let tail = before_cells(b, wb, tail.as_str());
    assert(tail@ == row(seq![b@, c@, d@, e@], seq![wb as nat, wc as nat, wd as nat]));
    before_cells(a, wa, tail.as_str())
}

fn counts(pod: &Pod) -> (c: (usize, u32))
    ensures
        match pod.deep_view().status {
            Some(s) => c.0 == ready_count(s.container_statuses) && c.1 == restarts_of(
                s.container_statuses,
            ),
            None => c.0 == 0 && c.1 == 0,
        },
{
    match &pod.status {
        Some(s) => {
            let ghost all = s.container_statuses.deep_view();
            let ghost is_ready = |c: ContainerStatusView| c.ready;
            let mut ready: usize = 0;
            let mut restarts: u32 = 0;
            proof {
                reveal(Seq::filter);
                assert(all.take(0) =~= Seq::<ContainerStatusView>::empty());
            }
            for i in 0..s.container_statuses.len()
                invariant
                    all == s.container_statuses.deep_view(),
                    is_ready == (|c: ContainerStatusView| c.ready),
                    ready <= i,
                    ready == all.take(i as int).filter(is_ready).len(),
                    restarts == restarts_of(all.take(i as int)),
            {
                proof {
                    reveal(Seq::filter);
                    assert(all.take(i + 1).drop_last() =~= all.take(i as int));
                    assert(all.take(i + 1).last() == s.container_statuses@[i as int].deep_view());
                }
                if s.container_statuses[i].ready {
                    ready = ready + 1;
                }
                restarts = restarts.saturating_add(s.container_statuses[i].restart_count);
            }
            assert(all.take(all.len() as int) =~= all);
            (ready, restarts)
        },
        None => (0, 0),
    }
}

/// One line of the table of Pods.
pub fn pod_row(pod: &Pod, now: Timestamp) -> (line: String)
    ensures
        line@ == row(pod_cells(pod.deep_view(), now), pod_widths()),
{
    let (ready, restarts): (usize, u32) = counts(pod);
    let mut share = text::decimal(ready as u64);
    share.append("/");
    text::push_decimal(&mut share, pod.spec.containers.len() as u64);
    let restarts_text = text::decimal(restarts as u64);
    let old = age(&pod.metadata, now);
    let line = five_cells(
        pod.metadata.name.as_str(),
        20,
        phase_str(pod),
        10,
        share.as_str(),
        8,
        restarts_text.as_str(),
        10,
        old.as_str(),
    );
    assert(pod_cells(pod.deep_view(), now) =~= seq![
        pod.metadata.name@,
        phase_shown(pod.deep_view()),
        share@,
        restarts_text@,
        old@,
    ]);
    line
}

/// The table of Pods: a heading, and a line for each.
pub fn pod_table(pods: &Vec<Pod>, now: Timestamp) -> (lines: Vec<String>)
    ensures
        lines.deep_view() == seq![
            row(seq!["NAME"@, "PHASE"@, "READY"@, "RESTARTS"@, "AGE"@], pod_widths()),
        ] + Seq::new(
            pods@.len(),
            |i: int| row(pod_cells(pods.deep_view()[i], now), pod_widths()),
        ),
{
    let mut lines: Vec<String> = Vec::new();
    lines.push(five_cells("NAME", 20, "PHASE", 10, "READY", 8, "RESTARTS", 10, "AGE"));
    let ghost head = lines@[0]@;
    for i in 0..pods.len()
        invariant
            lines@.len() == i + 1,
            lines@[0]@ == head,
            forall|k: int|
                0 <= k < i ==> (#[trigger] lines@[k + 1])@ == row(
                    pod_cells(pods@[k].deep_view(), now),
                    pod_widths(),
                ),
    {
        lines.push(pod_row(&pods[i], now));
    }
    proof {
        let wanted = seq![head] + Seq::new(
            pods@.len(),
            |i: int| row(pod_cells(pods.deep_view()[i], now), pod_widths()),
        );
        assert forall|k: int| 0 <= k < lines@.len() implies lines.deep_view()[k] == wanted[k] by {
            if k > 0 {
                assert(lines@[(k - 1) + 1]@ == row(
                    pod_cells(pods@[k - 1].deep_view(), now),
                    pod_widths(),
                ));
            }
        }
        assert(lines.deep_view() =~= wanted);
    }
    lines
}

pub open spec fn rs_cells(rs: ReplicaSetView, now: Timestamp) -> Seq<Seq<char>> {
    let (current, ready) = match rs.status {
        Some(s) => (s.replicas, s.ready_replicas),
        None => (0u32, 0u32),
    };
    seq![
        rs.metadata.name,
        text::decimal_chars(rs.spec.replicas as nat),
        text::decimal_chars(current as nat),
        text::decimal_chars(ready as nat),
        age_of(rs.metadata, now),
    ]
}

pub open spec fn rs_widths() -> Seq<nat> {
    seq![20nat, 9, 9, 9]
}

/// One line of the table of ReplicaSets.
pub fn rs_row(rs: &ReplicaSet, now: Timestamp) -> (line: String)
    ensures
        line@ == row(rs_cells(rs.deep_view(), now), rs_widths()),
{
    let (current, ready): (u32, u32) = match &rs.status {
        Some(s) => (s.replicas, s.ready_replicas),
        None => (0, 0),
    };
    let desired_text = text::decimal(rs.spec.replicas as u64);
    let current_text = text::decimal(current as u64);
    let ready_text = text::decimal(ready as u64);
    let old = age(&rs.metadata, now);
    five_cells(
        rs.metadata.name.as_str(),
        20,
        desired_text.as_str(),
        9,
        current_text.as_str(),
        9,
        ready_text.as_str(),
        9,
        old.as_str(),
    )
}

/// The table of ReplicaSets: a heading, and a line for each.
pub fn rs_table(items: &Vec<ReplicaSet>, now: Timestamp) -> (lines: Vec<String>)
    ensures
        lines.deep_view() == seq![
            row(seq!["NAME"@, "DESIRED"@, "CURRENT"@, "READY"@, "AGE"@], rs_widths()),
        ] + Seq::new(
            items@.len(),
            |i: int| row(rs_cells(items.deep_view()[i], now), rs_widths()),
        ),
{
    let mut lines: Vec<String> = Vec::new();
    lines.push(five_cells("NAME", 20, "DESIRED", 9, "CURRENT", 9, "READY", 9, "AGE"));
    let ghost head = lines@[0]@;
    for i in 0..items.len()
        invariant
            lines@.len() == i + 1,
            lines@[0]@ == head,
            forall|k: int|
                0 <= k < i ==> (#[trigger] lines@[k + 1])@ == row(
                    rs_cells(items@[k].deep_view(), now),
                    rs_widths(),
                ),
    {
        lines.push(rs_row(&items[i], now));
    }
    proof {
        let wanted = seq![head] + Seq::new(
            items@.len(),
            |i: int| row(rs_cells(items.deep_view()[i], now), rs_widths()),
        );
        assert forall|k: int| 0 <= k < lines@.len() implies lines.deep_view()[k] == wanted[k] by {
            if k > 0 {
                assert(lines@[(k - 1) + 1]@ == row(
                    rs_cells(items@[k - 1].deep_view(), now),
                    rs_widths(),
                ));
            }
        }
        assert(lines.deep_view() =~= wanted);
    }
    lines
}

pub open spec fn node_cells(n: NodeView, now: Timestamp) -> Seq<Seq<char>> {
    seq![
        n.metadata.name,
        if node::is_fresh(node::report_age(n, now), READY_WINDOW_SECS) {
            "True"@
        } else {
            "False"@
        },
        age_of(n.metadata, now),
    ]
}

pub open spec fn node_widths() -> Seq<nat> {
    seq![16nat, 8]
}

/// One line of the table of nodes.
pub fn node_row(n: &Node, now: Timestamp) -> (line: String)
    ensures
        line@ == row(node_cells(n.deep_view(), now), node_widths()),
{
    let ready = if n.is_ready(now, READY_WINDOW_SECS) {
        "True"
    } else {
        "False"
    };
    let old = age(&n.metadata, now);
    three_cells(n.metadata.name.as_str(), 16, ready, 8, old.as_str())
}

/// The table of nodes: a heading, and a line for each.
pub fn node_table(items: &Vec<Node>, now: Timestamp) -> (lines: Vec<String>)
    ensures
        lines.deep_view() == seq![row(seq!["NAME"@, "READY"@, "AGE"@], node_widths())] + Seq::new(
            items@.len(),
            |i: int| row(node_cells(items.deep_view()[i], now), node_widths()),
        ),
{
    let mut lines: Vec<String> = Vec::new();
    lines.push(three_cells("NAME", 16, "READY", 8, "AGE"));
    let ghost head = lines@[0]@;
    for i in 0..items.len()
        invariant
            lines@.len() == i + 1,
            lines@[0]@ == head,
            forall|k: int|
                0 <= k < i ==> (#[trigger] lines@[k + 1])@ == row(
                    node_cells(items@[k].deep_view(), now),
                    node_widths(),
                ),
    {
        lines.push(node_row(&items[i], now));
    }
    proof {
        let wanted = seq![head] + Seq::new(
            items@.len(),
            |i: int| row(node_cells(items.deep_view()[i], now), node_widths()),
        );
        assert forall|k: int| 0 <= k < lines@.len() implies lines.deep_view()[k] == wanted[k] by {
            if k > 0 {
                assert(lines@[(k - 1) + 1]@ == row(
                    node_cells(items@[k - 1].deep_view(), now),
                    node_widths(),
                ));
            }
        }
        assert(lines.deep_view() =~= wanted);
    }
    lines
}

pub open spec fn event_chars(t: WatchEventType) -> Seq<char> {
    match t {
        WatchEventType::Added => "Added"@,
        WatchEventType::Modified => "Modified"@,
        WatchEventType::Deleted => "Deleted"@,
    }
}

/// One line of a watch on Pods; none for a Pod other than the one asked for.
pub fn watch_row(event: WatchEventType, pod: &Pod, wanted: Option<&str>) -> (line: Option<String>)
    ensures
        match line {
            Some(line) => (wanted matches Some(w) ==> w@ == pod.deep_view().metadata.name) && line@
                == row(
                seq![event_chars(event), phase_shown(pod.deep_view()), pod.deep_view().metadata.name],
                seq![10nat, 10],
            ),
            None => wanted matches Some(w) && w@ != pod.deep_view().metadata.name,
        },
{
    if let Some(w) = wanted {
        if !text::same(w, pod.metadata.name.as_str()) {
            return None;
        }
    }
    let kind = match event {
        WatchEventType::Added => "Added",
        WatchEventType::Modified => "Modified",
        WatchEventType::Deleted => "Deleted",
    };
    Some(three_cells(kind, 10, phase_str(pod), 10, pod.metadata.name.as_str()))
}


/// Law: an age is shown in whole units, the largest of seconds, minutes, hours
/// and days of which there is one; what lies ahead has no age.
pub proof fn ages_are_shown_in_whole_units(secs: i64, s: String, unknown: String)
    requires
        call_ensures(age_text, (Some(secs),), s),
        call_ensures(age_text, (None,), unknown),
    ensures
        unknown@ == "<bad-ts>"@,
        secs < 0 ==> s@ == "0s"@,
        0 <= secs < 60 ==> s@ == text::decimal_chars(secs as nat) + "s"@,
        60 <= secs < 60 * 60 ==> shows_units(secs as int, 60, "m"@, s@),
        60 * 60 <= secs < 24 * 60 * 60 ==> shows_units(secs as int, 60int * 60, "h"@, s@),
        24 * 60 * 60 <= secs ==> shows_units(secs as int, 24int * 60 * 60, "d"@, s@),
{
    if secs >= 86400 {
        assert(units_fit(secs as int, 86400, secs as int / 86400));
    } else if secs >= 3600 {
        assert(units_fit(secs as int, 3600, secs as int / 3600));
    } else if secs >= 60 {
        assert(units_fit(secs as int, 60, secs as int / 60));
    }
}

/// Whether a number of units is how often the unit is in a time.
pub open spec fn units_fit(secs: int, unit: int, count: int) -> bool {
    0 <= count && count * unit <= secs < (count + 1) * unit
}

/// Whether a text is how often a unit is in a time, and then the unit's letter.
pub open spec fn shows_units(secs: int, unit: int, letter: Seq<char>, s: Seq<char>) -> bool {
    exists|count: int|
        #[trigger] units_fit(secs, unit, count) && s == text::decimal_chars(count as nat) + letter
}

/// Law: containers are counted one by one: the ready ones, and the restarts, of
/// which as many are shown as fit.
pub proof fn containers_are_counted(statuses: Seq<ContainerStatusView>, more: ContainerStatusView)
    ensures
        ready_count(Seq::empty()) == 0,
        restarts_of(Seq::empty()) == 0,
        ready_count(statuses.push(more)) == ready_count(statuses) + (if more.ready {
            1int
        } else {
            0int
        }),
        restarts_of(statuses.push(more)) == vstd::math::min(
            restarts_of(statuses) + more.restart_count,
            u32::MAX as int,
        ),
{
    reveal(Seq::filter);
    assert(statuses.push(more).drop_last() =~= statuses);
}

/// Law: the line of a Pod shows its name, its phase, how many of the containers
/// that it asks for are ready, how often they were restarted, and its age.
pub proof fn pod_lines_show_the_pod(pod: &Pod, now: Timestamp, line: String)
    requires
        call_ensures(pod_row, (pod, now), line),
    ensures
        ({
            let v = pod.deep_view();
            let statuses = match v.status {
                Some(s) => s.container_statuses,
                None => Seq::empty(),
            };
            line@ == text::left_aligned(pod.metadata.name@, 20) + " "@ + (text::left_aligned(
                phase_shown(v),
                10,
            ) + " "@ + (text::left_aligned(
                text::decimal_chars(ready_count(statuses)) + "/"@ + text::decimal_chars(
                    pod.spec.containers@.len(),
                ),
                8,
            ) + " "@ + (text::left_aligned(text::decimal_chars(restarts_of(statuses)), 10) + " "@
                + age_of(v.metadata, now))))
        }),
{
    let v = pod.deep_view();
    reveal(Seq::filter);
    assert(pod.spec.containers.deep_view().len() == pod.spec.containers@.len());
    five_in_a_row(pod_cells(v, now), pod_widths());
}

proof fn five_in_a_row(cells: Seq<Seq<char>>, widths: Seq<nat>)
    requires
        cells.len() == 5,
        widths.len() == 4,
    ensures
        row(cells, widths) == text::left_aligned(cells[0], widths[0]) + " "@ + (text::left_aligned(
            cells[1],
            widths[1],
        ) + " "@ + (text::left_aligned(cells[2], widths[2]) + " "@ + (text::left_aligned(
            cells[3],
            widths[3],
        ) + " "@ + cells[4]))),
{
    reveal_with_fuel(row, 5);
    let c1 = cells.skip(1);
    let w1 = widths.skip(1);
    let c2 = c1.skip(1);
    let w2 = w1.skip(1);
    let c3 = c2.skip(1);
    let w3 = w2.skip(1);
    let c4 = c3.skip(1);
    assert(c1[0] == cells[1] && c2[0] == cells[2] && c3[0] == cells[3] && c4[0] == cells[4]);
    assert(w1[0] == widths[1] && w2[0] == widths[2] && w3[0] == widths[3]);
}

/// Law: the line of a ReplicaSet shows its name, how many Pods it asks for, how
/// many it has and how many of these are ready, and its age.
pub proof fn replicaset_lines_show_the_numbers(rs: &ReplicaSet, now: Timestamp, line: String)
    requires
        call_ensures(rs_row, (rs, now), line),
    ensures
        ({
            let (current, ready) = match rs.status {
                Some(s) => (s.replicas, s.ready_replicas),
                None => (0, 0),
            };
            line@ == text::left_aligned(rs.metadata.name@, 20) + " "@ + (text::left_aligned(
                text::decimal_chars(rs.spec.replicas as nat),
                9,
            ) + " "@ + (text::left_aligned(text::decimal_chars(current as nat), 9) + " "@ + (
            text::left_aligned(text::decimal_chars(ready as nat), 9) + " "@ + age_of(
                rs.deep_view().metadata,
                now,
            ))))
        }),
{
    five_in_a_row(rs_cells(rs.deep_view(), now), rs_widths());
}

/// Law: the line of a node shows its name, whether it reported lately, and its
/// age.
pub proof fn node_lines_show_readiness(n: &Node, now: Timestamp, line: String)
    requires
        call_ensures(node_row, (n, now), line),
    ensures
        ({
            let v = n.deep_view();
            let ready = if node::is_fresh(node::report_age(v, now), 30) {
                "True"@
            } else {
                "False"@
            };
            line@ == text::left_aligned(n.metadata.name@, 16) + " "@ + (text::left_aligned(ready, 8)
                + " "@ + age_of(v.metadata, now))
        }),
{
    reveal_with_fuel(row, 3);
    let cells = node_cells(n.deep_view(), now);
    let widths = node_widths();
    assert(cells.skip(1)[0] == cells[1]);
    assert(cells.skip(1).skip(1)[0] == cells[2]);
    assert(widths.skip(1)[0] == widths[1]);
}

/// Law: a table has a line of headings and then one line for each object, in the
/// order in which they come.
pub proof fn tables_show_every_object(
    pods: &Vec<Pod>,
    now: Timestamp,
    lines: Vec<String>,
    i: int,
    line: String,
)
    requires
        call_ensures(pod_table, (pods, now), lines),
        0 <= i < pods@.len(),
        call_ensures(pod_row, (&pods@[i], now), line),
    ensures
        lines@.len() == pods@.len() + 1,
        lines@[0]@ == text::left_aligned("NAME"@, 20) + " "@ + (text::left_aligned("PHASE"@, 10)
            + " "@ + (text::left_aligned("READY"@, 8) + " "@ + (text::left_aligned("RESTARTS"@, 10)
            + " "@ + "AGE"@))),
        lines@[1 + i]@ == line@,
{
    let heads = seq!["NAME"@, "PHASE"@, "READY"@, "RESTARTS"@, "AGE"@];
    five_in_a_row(heads, pod_widths());
    let seen = lines.deep_view();
    assert(seen.len() == pods@.len() + 1);
    assert(seen[0] == row(heads, pod_widths()));
    assert(seen[1 + i] == row(pod_cells(pods.deep_view()[i], now), pod_widths()));
    assert(pods.deep_view()[i] == pods@[i].deep_view());
    assert(seen[0] == lines@[0]@ && seen[1 + i] == lines@[1 + i]@);
}

/// Law: applying a Pod creates it where none is stored under its name, and else
/// puts it in the place of the stored one, over that one's version, with all
/// else as the manifest has it.
pub proof fn applied_pods_take_the_stored_version(wanted: Pod, existing: Option<Pod>, u: Upsert<Pod>)
    requires
        call_ensures(upsert::<Pod>, (wanted, existing), u),
    ensures
        match (existing, u) {
            (None, Upsert::Create(o)) => o.deep_view() == wanted.deep_view(),
            (Some(e), Upsert::Replace(o)) => {
                let was = wanted.deep_view();
                let now = o.deep_view();
                &&& now.metadata.resource_version == e.deep_view().metadata.resource_version
                &&& now.metadata == (MetaView {
                    resource_version: now.metadata.resource_version,
                    ..was.metadata
                })
                &&& now.spec == was.spec
                &&& now.status == was.status
            },
            _ => false,
        },
{
}

/// Law: applying a ReplicaSet goes the same way.
pub proof fn applied_replicasets_take_the_stored_version(
    wanted: ReplicaSet,
    existing: Option<ReplicaSet>,
    u: Upsert<ReplicaSet>,
)
    requires
        call_ensures(upsert::<ReplicaSet>, (wanted, existing), u),
    ensures
        match (existing, u) {
            (None, Upsert::Create(o)) => o.deep_view() == wanted.deep_view(),
            (Some(e), Upsert::Replace(o)) => {
                let was = wanted.deep_view();
                let now = o.deep_view();
                &&& now.metadata.resource_version == e.deep_view().metadata.resource_version
                &&& now.metadata == (MetaView {
                    resource_version: now.metadata.resource_version,
                    ..was.metadata
                })
                &&& now.spec == was.spec
                &&& now.status == was.status
            },
            _ => false,
        },
{
}

/// Law: the words for Pods, ReplicaSets and nodes are known, in both numbers,
/// and no others. Nodes are shown but not deleted; only Pods and ReplicaSets are
/// applied.
pub proof fn words_stand_for_kinds(
    word: &str,
    shown: Result<Resource, String>,
    deleted: Result<Resource, String>,
    applied: Result<ManifestKind, String>,
)
    requires
        call_ensures(shown_resource, (word,), shown),
        call_ensures(deleted_resource, (word,), deleted),
        call_ensures(manifest_kind, (word,), applied),
    ensures
        match shown {
            Ok(Resource::Pods) => word@ == "pod"@ || word@ == "pods"@,
            Ok(Resource::ReplicaSets) => word@ == "rs"@ || word@ == "replicaset"@ || word@
                == "replicasets"@,
            Ok(Resource::Nodes) => word@ == "node"@ || word@ == "nodes"@,
            Err(_) => word@ != "pod"@ && word@ != "pods"@ && word@ != "rs"@ && word@
                != "replicaset"@ && word@ != "replicasets"@ && word@ != "node"@ && word@
                != "nodes"@,
        },
        match (shown, deleted) {
            (Ok(a), Ok(b)) => a == b && a != Resource::Nodes,
            (Ok(a), Err(_)) => a == Resource::Nodes,
            (Err(_), Err(_)) => true,
            _ => false,
        },
        match applied {
            Ok(ManifestKind::Pod) => word@ == "Pod"@,
            Ok(ManifestKind::ReplicaSet) => word@ == "ReplicaSet"@,
            Err(_) => word@ != "Pod"@ && word@ != "ReplicaSet"@,
        },
{
}


/// Law: a Pod is shown in the phase that was last reported, and as pending until
/// then.
pub proof fn phases_are_shown(pod: &Pod, s: &'static str)
    requires
        call_ensures(phase_str, (pod,), s),
    ensures
        s@ == (match pod.status {
            None => "Pending"@,
            Some(status) => match status.phase {
                PodPhase::Pending => "Pending"@,
                PodPhase::Running => "Running"@,
                PodPhase::Succeeded => "Succeeded"@,
                PodPhase::Failed => "Failed"@,
                PodPhase::Unknown => "Unknown"@,
            },
        }),
{
}

/// Law: a watch shows what happened, the phase and the name, of every Pod or of
/// the one that was asked for.
pub proof fn watches_show_what_happened(
    event: WatchEventType,
    pod: &Pod,
    wanted: Option<&str>,
    line: Option<String>,
    phase: &'static str,
)
    requires
        call_ensures(watch_row, (event, pod, wanted), line),
        call_ensures(phase_str, (pod,), phase),
    ensures
        line is Some <==> (wanted is None || wanted->0@ == pod.metadata.name@),
        line is Some ==> line->0@ == text::left_aligned(
            match event {
                WatchEventType::Added => "Added"@,
                WatchEventType::Modified => "Modified"@,
                WatchEventType::Deleted => "Deleted"@,
            },
            10,
        ) + " "@ + (text::left_aligned(phase@, 10) + " "@ + pod.metadata.name@),
{
    reveal_with_fuel(row, 3);
    let cells = seq![event_chars(event), phase_shown(pod.deep_view()), pod.deep_view().metadata.name];
    let widths = seq![10nat, 10];
    assert(cells.skip(1)[0] == cells[1]);
    assert(cells.skip(1).skip(1)[0] == cells[2]);
    assert(widths.skip(1)[0] == widths[1]);
}

/// Law: the other two tables go the same way.
pub proof fn other_tables_show_every_object(
    sets: &Vec<ReplicaSet>,
    nodes: &Vec<Node>,
    now: Timestamp,
    set_lines: Vec<String>,
    node_lines: Vec<String>,
    i: int,
    j: int,
    set_line: String,
    node_line: String,
)
    requires
        call_ensures(rs_table, (sets, now), set_lines),
        call_ensures(node_table, (nodes, now), node_lines),
        0 <= i < sets@.len(),
        0 <= j < nodes@.len(),
        call_ensures(rs_row, (&sets@[i], now), set_line),
        call_ensures(node_row, (&nodes@[j], now), node_line),
    ensures
        set_lines@.len() == sets@.len() + 1,
        set_lines@[1 + i]@ == set_line@,
        node_lines@.len() == nodes@.len() + 1,
        node_lines@[1 + j]@ == node_line@,
{
    let sets_seen = set_lines.deep_view();
    let nodes_seen = node_lines.deep_view();
    assert(sets_seen.len() == sets@.len() + 1);
    assert(nodes_seen.len() == nodes@.len() + 1);
    assert(sets_seen[1 + i] == row(rs_cells(sets.deep_view()[i], now), rs_widths()));
    assert(nodes_seen[1 + j] == row(node_cells(nodes.deep_view()[j], now), node_widths()));
    assert(sets.deep_view()[i] == sets@[i].deep_view());
    assert(nodes.deep_view()[j] == nodes@[j].deep_view());
    assert(sets_seen[1 + i] == set_lines@[1 + i]@);
    assert(nodes_seen[1 + j] == node_lines@[1 + j]@);
}


/// Law: the age of an object is the time from when it was made until now. An
/// object that does not say when, and one that says so unreadably, have an age
/// of their own.
pub proof fn ages_count_from_the_creation(
    ts: &str,
    now: Timestamp,
    s: String,
    at: Option<Timestamp>,
    secs: Option<i64>,
    shown: String,
    m: MetaView,
)
    requires
        call_ensures(age_str, (ts, now), s),
        call_ensures(clock::parse_rfc3339, (ts,), at),
        at is Some ==> call_ensures(clock::seconds_between, (now, at->0), secs),
        call_ensures(age_text, (secs,), shown),
    ensures
        at is Some ==> s@ == shown@,
        at is None ==> s@ == "<bad-ts>"@,
        m.creation_timestamp is None ==> age_of(m, now) == "<unknown>"@,
        m.creation_timestamp == Some(ts@) ==> age_of(m, now) == s@,
{
}

} // verus!
