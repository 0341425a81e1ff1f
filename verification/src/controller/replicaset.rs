//! Drives the number of Pods of a ReplicaSet towards the number asked for.

use vstd::prelude::*;

use crate::controller::request;
use crate::controller::request::{
    break_off, Progress, ProgressView, Reply, ReplyView, Request, RequestView,
};
use crate::duplicate::Duplicate;
use crate::identity;
use crate::labels::{satisfies, Labels};
use crate::meta::{MetaView, ObjectMeta, OwnerReference, OwnerReferenceView};
use crate::order;
use crate::order::Sortable;
use crate::pod::{Pod, PodPhase, PodView};
use crate::replicaset::{LabelSelector, ReplicaSet, ReplicaSetStatus, ReplicaSetView};
use crate::text;

verus! {

/// Whether a selector's labels are all among some labels. An empty selector
/// matches everything.
pub fn matches_selector(labels: &Labels, selector: &LabelSelector) -> (r: bool)
    ensures
        r == selector.deep_view().match_labels.submap_of(labels@),
{
    satisfies(labels, &selector.match_labels)
}

/// Whether an owner reference says that a ReplicaSet controls its object.
pub open spec fn controls(o: OwnerReferenceView) -> bool {
    o.kind == "ReplicaSet"@ && o.controller
}

/// The ReplicaSet that controls a Pod: the first one that says so.
pub open spec fn controlling(owners: Seq<OwnerReferenceView>) -> Option<Seq<char>>
    decreases owners.len(),
{
    if owners.len() == 0 {
        None
    } else if controls(owners[0]) {
        Some(owners[0].name)
    } else {
        controlling(owners.skip(1))
    }
}

/// The ReplicaSet, if any, that controls a Pod.
pub fn rs_key_for_pod(pod: &Pod) -> (key: Option<String>)
    ensures
        key.deep_view() == controlling(pod.deep_view().metadata.owner_references),
{
    let owners = &pod.metadata.owner_references;
    let ghost all = owners.deep_view();
    assert(all.skip(0) =~= all);
    for i in 0..owners.len()
        invariant
            all == owners.deep_view(),
            all == pod.deep_view().metadata.owner_references,
            controlling(all) == controlling(all.skip(i as int)),
    {
        assert(all.skip(i as int).skip(1) =~= all.skip(i + 1));
        assert(all.skip(i as int)[0] == owners@[i as int].deep_view());
        if text::same(owners[i].kind.as_str(), "ReplicaSet") && owners[i].controller {
            return Some(owners[i].name.clone());
        }
    }
    None
}

pub open spec fn owned(pod: PodView, rs_name: Seq<char>) -> bool {
    exists|i: int|
        0 <= i < pod.metadata.owner_references.len() && controls(
            #[trigger] pod.metadata.owner_references[i],
        ) && pod.metadata.owner_references[i].name == rs_name
}

/// Whether a ReplicaSet controls a Pod.
pub fn is_owned_by(pod: &Pod, rs_name: &str) -> (r: bool)
    ensures
        r == owned(pod.deep_view(), rs_name@),
{
    let owners = &pod.metadata.owner_references;
    let ghost all = owners.deep_view();
    for i in 0..owners.len()
        invariant
            all == owners.deep_view(),
            all == pod.deep_view().metadata.owner_references,
            forall|k: int|
                0 <= k < i ==> !(controls(#[trigger] all[k]) && all[k].name == rs_name@),
    {
        assert(all[i as int] == owners@[i as int].deep_view());
        if text::same(owners[i].kind.as_str(), "ReplicaSet") && owners[i].controller && text::same(
            owners[i].name.as_str(),
            rs_name,
        ) {
            return true;
        }
    }
    false
}

pub open spec fn has_controller(pod: PodView) -> bool {
    exists|i: int|
        0 <= i < pod.metadata.owner_references.len()
            && (#[trigger] pod.metadata.owner_references[i]).controller
}

/// A Pod can be adopted if nothing controls it and the selector matches it.
pub open spec fn adoptable(pod: PodView, rs: ReplicaSetView) -> bool {
    !has_controller(pod) && rs.spec.selector.match_labels.submap_of(pod.metadata.labels)
}

pub fn can_adopt(pod: &Pod, rs: &ReplicaSet) -> (r: bool)
    ensures
        r == adoptable(pod.deep_view(), rs.deep_view()),
{
    let owners = &pod.metadata.owner_references;
    let ghost all = owners.deep_view();
    for i in 0..owners.len()
        invariant
            all == owners.deep_view(),
            all == pod.deep_view().metadata.owner_references,
            forall|k: int| 0 <= k < i ==> !(#[trigger] all[k]).controller,
    {
        assert(all[i as int] == owners@[i as int].deep_view());
        if owners[i].controller {
            return false;
        }
    }
    matches_selector(&pod.metadata.labels, &rs.spec.selector)
}

pub open spec fn owner_of(rs: ReplicaSetView) -> OwnerReferenceView {
    OwnerReferenceView {
        api_version: "apps/v1"@,
        kind: "ReplicaSet"@,
        name: rs.metadata.name,
        uid: match rs.metadata.uid {
            Some(uid) => uid,
            None => Seq::empty(),
        },
        controller: true,
    }
}

/// The reference by which a ReplicaSet controls its Pods.
pub fn owner_ref(rs: &ReplicaSet) -> (o: OwnerReference)
    ensures
        o.deep_view() == owner_of(rs.deep_view()),
{
    OwnerReference {
        api_version: "apps/v1".to_owned(),
        kind: "ReplicaSet".to_owned(),
        name: rs.metadata.name.clone(),
        uid: match &rs.metadata.uid {
            Some(uid) => uid.clone(),
            None => String::new(),
        },
        controller: true,
    }
}

/// A Pod after its adoption.
pub open spec fn adopted(pod: PodView, rs: ReplicaSetView) -> PodView {
    PodView {
        metadata: MetaView {
            owner_references: pod.metadata.owner_references.push(owner_of(rs)),
            ..pod.metadata
        },
        ..pod
    }
}

/// A Pod that counts for a ReplicaSet.
#[derive(Debug, Clone, PartialEq)]
pub enum Claim {
    /// The ReplicaSet controls it.
    Owned(Pod),
    /// The ReplicaSet will, once the Pod is written back like this.
    Adopt(Pod),
}

pub enum ClaimView {
    Owned(PodView),
    Adopt(PodView),
}

impl DeepView for Claim {
    type V = ClaimView;

    open spec fn deep_view(&self) -> ClaimView {
        match self {
            Claim::Owned(p) => ClaimView::Owned(p.deep_view()),
            Claim::Adopt(p) => ClaimView::Adopt(p.deep_view()),
        }
    }
}

/// What a Pod is to the ReplicaSet that is kept under a name.
pub open spec fn claim_on(pod: PodView, rs_name: Seq<char>, rs: ReplicaSetView) -> Option<
    ClaimView,
> {
    if owned(pod, rs_name) {
        Some(ClaimView::Owned(pod))
    } else if adoptable(pod, rs) {
        Some(ClaimView::Adopt(adopted(pod, rs)))
    } else {
        None
    }
}

/// The Pods that count for a ReplicaSet, in the order in which they are
/// listed.
pub open spec fn claims_on(pods: Seq<PodView>, rs_name: Seq<char>, rs: ReplicaSetView) -> Seq<
    ClaimView,
>
    decreases pods.len(),
{
    if pods.len() == 0 {
        Seq::empty()
    } else {
        let front = claims_on(pods.drop_last(), rs_name, rs);
        match claim_on(pods.last(), rs_name, rs) {
            Some(c) => front.push(c),
            None => front,
        }
    }
}

/// Finds the Pods that count for a ReplicaSet.
pub fn claims(pods: &Vec<Pod>, rs_name: &str, rs: &ReplicaSet) -> (found: Vec<Claim>)
    ensures
        found.deep_view() == claims_on(pods.deep_view(), rs_name@, rs.deep_view()),
{
    let ghost all = pods.deep_view();
    let mut found: Vec<Claim> = Vec::new();
    assert(all.take(0) =~= Seq::<PodView>::empty());
    assert(found.deep_view() =~= Seq::<ClaimView>::empty());
    for i in 0..pods.len()
        invariant
            all == pods.deep_view(),
            found.deep_view() == claims_on(all.take(i as int), rs_name@, rs.deep_view()),
    {
        let ghost before = found.deep_view();
        let ghost pod = all[i as int];
        proof {
            assert(all.take(i + 1).drop_last() =~= all.take(i as int));
            assert(all.take(i + 1).last() == pods@[i as int].deep_view());
        }
        if is_owned_by(&pods[i], rs_name) {
            found.push(Claim::Owned(pods[i].duplicate()));
            assert(found.deep_view() =~= before.push(ClaimView::Owned(pod)));
        } else if can_adopt(&pods[i], rs) {
            let mut pod_now = pods[i].duplicate();
            let ghost refs = pod_now.metadata.owner_references.deep_view();
            pod_now.metadata.owner_references.push(owner_ref(rs));
            assert(pod_now.metadata.owner_references.deep_view() =~= refs.push(
                owner_of(rs.deep_view()),
            ));
            assert(pod_now.deep_view() == adopted(pod, rs.deep_view()));
            found.push(Claim::Adopt(pod_now));
            assert(found.deep_view() =~= before.push(
                ClaimView::Adopt(adopted(pod, rs.deep_view())),
            ));
        }
    }
    assert(all.take(pods@.len() as int) =~= all);
    found
}

/// What follows the hyphen in the name of a Pod: five hexadecimal digits.
pub open spec fn is_suffix(s: Seq<char>) -> bool {
    s.len() == 5 && forall|i: int| 0 <= i < 5 ==> identity::lower_hex(#[trigger] s[i])
}

fn new_suffix() -> (suffix: String)
    ensures
        is_suffix(suffix@),
{
    let uid = identity::new_simple_uid();
    let suffix = uid.as_str().substring_char(0, 5).to_owned();
    assert forall|i: int| 0 <= i < 5 implies identity::lower_hex(#[trigger] suffix@[i]) by {
        assert(suffix@[i] == uid@[i]);
    }
    suffix
}

/// A Pod as a ReplicaSet's template asks for it.
pub open spec fn templated(rs: ReplicaSetView, suffix: Seq<char>) -> PodView {
    PodView {
        api_version: "v1"@,
        kind: "Pod"@,
        metadata: MetaView {
            labels: rs.spec.template.metadata.labels,
            owner_references: seq![owner_of(rs)],
            ..MetaView::named(rs.metadata.name + "-"@ + suffix)
        },
        spec: rs.spec.template.spec,
        status: None,
    }
}

/// A Pod as a ReplicaSet's template asks for it, with a given suffix.
pub fn pod_with_suffix(rs: &ReplicaSet, suffix: &str) -> (pod: Pod)
    ensures
        pod.deep_view() == templated(rs.deep_view(), suffix@),
{
    let mut name = rs.metadata.name.clone();
    name.append("-");
    name.append(suffix);
    let mut metadata = ObjectMeta::named(name);
    metadata.labels = rs.spec.template.metadata.labels.duplicate();
    let mut owners: Vec<OwnerReference> = Vec::new();
    owners.push(owner_ref(rs));
    assert(owners.deep_view() =~= seq![owner_of(rs.deep_view())]);
    metadata.owner_references = owners;
    Pod {
        api_version: "v1".to_owned(),
        kind: "Pod".to_owned(),
        metadata,
        spec: rs.spec.template.spec.duplicate(),
        status: None,
    }
}

/// A new Pod of a ReplicaSet, under a name of its own.
pub fn pod_from_template(rs: &ReplicaSet) -> (pod: Pod)
    ensures
        exists|suffix: Seq<char>|
            is_suffix(suffix) && pod.deep_view() == #[trigger] templated(rs.deep_view(), suffix),
{
    let suffix = new_suffix();
    pod_with_suffix(rs, suffix.as_str())
}

/// The order of creation times: none comes before any.
pub open spec fn older(a: Option<Seq<char>>, b: Option<Seq<char>>) -> bool {
    match (a, b) {
        (None, Some(_)) => true,
        (Some(x), Some(y)) => text::text_before(x, y),
        _ => false,
    }
}

impl Sortable for Pod {
    open spec fn precedes(a: PodView, b: PodView) -> bool {
        older(a.metadata.creation_timestamp, b.metadata.creation_timestamp)
    }

    fn is_before(&self, other: &Self) -> (r: bool) {
        match (&self.metadata.creation_timestamp, &other.metadata.creation_timestamp) {
            (None, Some(_)) => true,
            (Some(x), Some(y)) => text::before(x.as_str(), y.as_str()),
            _ => false,
        }
    }

    proof fn order_is_weak(a: PodView, b: PodView, c: PodView) {
        let x = a.metadata.creation_timestamp;
        let y = b.metadata.creation_timestamp;
        let z = c.metadata.creation_timestamp;
        if x is Some {
            text::text_before_is_total(x->0, x->0);
        }
        if x is Some && y is Some {
            text::text_before_is_total(x->0, y->0);
            if z is Some {
                text::text_before_is_total(x->0, z->0);
                text::text_before_is_total(z->0, y->0);
                if text::text_before(z->0, x->0) && text::text_before(x->0, y->0) {
                    text::text_before_is_transitive(z->0, x->0, y->0);
                }
            }
        }
    }
}

/// A write that brings the number of Pods closer to the number asked for.
#[derive(Debug, Clone, PartialEq)]
pub enum Scaling {
    Create(Pod),
    Delete { name: String, rv: String },
}

pub enum ScalingView {
    Create(PodView),
    Delete { name: Seq<char>, rv: Seq<char> },
}

impl DeepView for Scaling {
    type V = ScalingView;

    open spec fn deep_view(&self) -> ScalingView {
        match self {
            Scaling::Create(p) => ScalingView::Create(p.deep_view()),
            Scaling::Delete { name, rv } => ScalingView::Delete { name: name@, rv: rv@ },
        }
    }
}

/// The deletions of some Pods, in their order. One without a version was never
/// stored and is passed over.
pub open spec fn deletions(pods: Seq<PodView>) -> Seq<ScalingView>
    decreases pods.len(),
{
    if pods.len() == 0 {
        Seq::empty()
    } else {
        let front = deletions(pods.drop_last());
        match pods.last().metadata.resource_version {
            Some(rv) => front.push(ScalingView::Delete { name: pods.last().metadata.name, rv }),
            None => front,
        }
    }
}

fn delete_all(pods: &Vec<Pod>, count: usize) -> (plan: Vec<Scaling>)
    requires
        count <= pods@.len(),
    ensures
        plan.deep_view() == deletions(pods.deep_view().take(count as int)),
{
    let ghost all = pods.deep_view();
    let mut plan: Vec<Scaling> = Vec::new();
    assert(all.take(0) =~= Seq::<PodView>::empty());
    assert(plan.deep_view() =~= Seq::<ScalingView>::empty());
    for i in 0..count
        invariant
            count <= pods@.len(),
            all == pods.deep_view(),
            plan.deep_view() == deletions(all.take(i as int)),
    {
        let ghost before = plan.deep_view();
        proof {
            assert(all.take(i + 1).drop_last() =~= all.take(i as int));
            assert(all.take(i + 1).last() == pods@[i as int].deep_view());
        }
        if let Some(rv) = &pods[i].metadata.resource_version {
            plan.push(Scaling::Delete { name: pods[i].metadata.name.clone(), rv: rv.clone() });
            assert(plan.deep_view() =~= before.push(
                ScalingView::Delete { name: all[i as int].metadata.name, rv: rv@ },
            ));
        }
    }
    plan
}

/// A write that creates one more Pod of a ReplicaSet.
pub open spec fn creates_one(rs: ReplicaSetView, write: ScalingView) -> bool {
    exists|suffix: Seq<char>|
        is_suffix(suffix) && write == ScalingView::Create(#[trigger] templated(rs, suffix))
}

/// What is written to get from the Pods a ReplicaSet has to the number asked
/// for: as many new ones as are missing, or no longer the oldest ones.
pub open spec fn is_scaling(
    rs: ReplicaSetView,
    owned: Seq<PodView>,
    plan: Seq<ScalingView>,
) -> bool {
    if owned.len() < rs.spec.replicas {
        &&& plan.len() == rs.spec.replicas - owned.len()
        &&& forall|i: int| 0 <= i < plan.len() ==> creates_one(rs, #[trigger] plan[i])
    } else {
        plan == deletions(order::sorted::<Pod>(owned).take(owned.len() - rs.spec.replicas))
    }
}

/// Plans the writes that bring the number of Pods to the number asked for.
pub fn scale(rs: &ReplicaSet, owned: &Vec<Pod>) -> (plan: Vec<Scaling>)
    ensures
        is_scaling(rs.deep_view(), owned.deep_view(), plan.deep_view()),
{
    let desired: u32 = rs.spec.replicas;
    if owned.len() < desired as usize {
        let missing: usize = desired as usize - owned.len();
        let mut plan: Vec<Scaling> = Vec::new();
        for i in 0..missing
            invariant
                plan@.len() == i,
                forall|k: int|
                    0 <= k < plan@.len() ==> creates_one(
                        rs.deep_view(),
                        #[trigger] plan.deep_view()[k],
                    ),
        {
            let ghost before = plan.deep_view();
            let pod = pod_from_template(rs);
            let ghost made = ScalingView::Create(pod.deep_view());
            plan.push(Scaling::Create(pod));
            assert(plan.deep_view() =~= before.push(made));
            assert(creates_one(rs.deep_view(), made));
        }
        plan
    } else {
        proof {
            order::sorting_orders::<Pod>(owned.deep_view());
        }
        let surplus: usize = owned.len() - desired as usize;
        let oldest_first = order::sort(owned);
        assert(oldest_first.deep_view().len() == owned@.len());
        delete_all(&oldest_first, surplus)
    }
}

/// The deletions that follow a ReplicaSet's own: of all Pods it controls.
pub open spec fn cascade_of(pods: Seq<PodView>, rs_name: Seq<char>) -> Seq<ScalingView> {
    deletions(pods.filter(|p: PodView| owned(p, rs_name)))
}

/// The Pods that a ReplicaSet controls, in the order in which they are listed.
pub fn owned_pods(pods: &Vec<Pod>, rs_name: &str) -> (found: Vec<Pod>)
    ensures
        found.deep_view() == pods.deep_view().filter(|p: PodView| owned(p, rs_name@)),
{
    let ghost all = pods.deep_view();
    let ghost mine = |p: PodView| owned(p, rs_name@);
    let mut found: Vec<Pod> = Vec::new();
    proof {
        reveal(Seq::filter);
        assert(all.take(0) =~= Seq::<PodView>::empty());
        assert(found.deep_view() =~= Seq::<PodView>::empty());
    }
    for i in 0..pods.len()
        invariant
            all == pods.deep_view(),
            mine == (|p: PodView| owned(p, rs_name@)),
            found.deep_view() == all.take(i as int).filter(mine),
    {
        let ghost before = found.deep_view();
        proof {
            reveal(Seq::filter);
            assert(all.take(i + 1).drop_last() =~= all.take(i as int));
            assert(all.take(i + 1).last() == pods@[i as int].deep_view());
        }
        if is_owned_by(&pods[i], rs_name) {
            found.push(pods[i].duplicate());
            assert(found.deep_view() =~= before.push(all[i as int]));
        }
    }
    assert(all.take(pods@.len() as int) =~= all);
    found
}

/// Plans the deletions that follow a ReplicaSet's own.
pub fn cascade_delete(pods: &Vec<Pod>, rs_name: &str) -> (plan: Vec<Scaling>)
    ensures
        plan.deep_view() == cascade_of(pods.deep_view(), rs_name@),
{
    let mine = owned_pods(pods, rs_name);
    assert(mine.deep_view().take(mine@.len() as int) =~= mine.deep_view());
    delete_all(&mine, mine.len())
}

/// A Pod is ready when it runs and each of its containers, of which there is
/// at least one, is ready.
pub open spec fn ready(pod: PodView) -> bool {
    match pod.status {
        Some(s) => s.phase == PodPhase::Running && s.container_statuses.len() > 0 && forall|i: int|
            0 <= i < s.container_statuses.len() ==> (#[trigger] s.container_statuses[i]).ready,
        None => false,
    }
}

pub fn is_ready(pod: &Pod) -> (r: bool)
    ensures
        r == ready(pod.deep_view()),
{
    match &pod.status {
        Some(s) => {
            if s.phase != PodPhase::Running || s.container_statuses.len() == 0 {
                return false;
            }
            let ghost all = s.container_statuses.deep_view();
            for i in 0..s.container_statuses.len()
                invariant
                    all == s.container_statuses.deep_view(),
                    pod.status == Some(*s),
                    forall|k: int| 0 <= k < i ==> (#[trigger] all[k]).ready,
            {
                assert(all[i as int] == s.container_statuses@[i as int].deep_view());
                if !s.container_statuses[i].ready {
                    return false;
                }
            }
            true
        },
        None => false,
    }
}

/// The status that the Pods of a ReplicaSet give it.
pub open spec fn observed_status(
    rs_name: Seq<char>,
    rs: ReplicaSetView,
    pods: Seq<PodView>,
) -> ReplicaSetStatus {
    let mine = pods.filter(|p: PodView| owned(p, rs_name));
    ReplicaSetStatus {
        replicas: mine.len() as u32,
        ready_replicas: mine.filter(|p: PodView| ready(p)).len() as u32,
        observed_generation: match rs.metadata.generation {
            Some(g) => g,
            None => 0,
        },
    }
}

/// The status to write and the version it is written over: none where the
/// status is as observed, or the ReplicaSet was never stored.
pub open spec fn status_write(
    rs_name: Seq<char>,
    rs: ReplicaSetView,
    pods: Seq<PodView>,
) -> Option<(ReplicaSetStatus, Seq<char>)> {
    let status = observed_status(rs_name, rs, pods);
    if rs.status == Some(status) {
        None
    } else {
        match rs.metadata.resource_version {
            Some(rv) => Some((status, rv)),
            None => None,
        }
    }
}

/// Decides on a new status. A status that did not change is not written: each
/// write wakes the controller, which would then never rest.
pub fn update_status(rs_name: &str, rs: &ReplicaSet, pods: &Vec<Pod>) -> (write: Option<
    (ReplicaSetStatus, String),
>)
    ensures
        match write {
            Some((status, rv)) => status_write(rs_name@, rs.deep_view(), pods.deep_view())
                == Some((status, rv@)),
            None => status_write(rs_name@, rs.deep_view(), pods.deep_view()) is None,
        },
{
    let mine = owned_pods(pods, rs_name);
    let ghost all = mine.deep_view();
    let ghost is_ready_view = |p: PodView| ready(p);
    let mut count: usize = 0;
    proof {
        reveal(Seq::filter);
        assert(all.take(0) =~= Seq::<PodView>::empty());
    }
    for i in 0..mine.len()
        invariant
            all == mine.deep_view(),
            is_ready_view == (|p: PodView| ready(p)),
            count <= i,
            count == all.take(i as int).filter(is_ready_view).len(),
    {
        proof {
            reveal(Seq::filter);
            assert(all.take(i + 1).drop_last() =~= all.take(i as int));
            assert(all.take(i + 1).last() == mine@[i as int].deep_view());
        }
        if is_ready(&mine[i]) {
            count = count + 1;
        }
    }
    assert(all.take(mine@.len() as int) =~= all);
    let status = ReplicaSetStatus {
        replicas: mine.len() as u32,
        ready_replicas: count as u32,
        observed_generation: match rs.metadata.generation {
            Some(g) => g,
            None => 0,
        },
    };
    assert(status == observed_status(rs_name@, rs.deep_view(), pods.deep_view()));
    let unchanged = match &rs.status {
        Some(s) => *s == status,
        None => false,
    };
    if unchanged {
        return None;
    }
    match &rs.metadata.resource_version {
        Some(rv) => Some((status, rv.clone())),
        None => None,
    }
}

/// How far a round over one ReplicaSet has come: what is awaited.
#[derive(Debug, Clone, PartialEq)]
pub enum Stage {
    /// The ReplicaSet.
    Reading,
    /// The Pods, of a ReplicaSet that is gone.
    Orphaned,
    /// A deletion; these are left to make.
    Dropping { left: Vec<Scaling> },
    /// The Pods.
    Claiming { rs: ReplicaSet },
    /// An adoption; these claims are left to settle.
    Adopting { rs: ReplicaSet, left: Vec<Claim>, owned: Vec<Pod> },
    /// A creation or deletion; these are left to make.
    Resizing { rs: ReplicaSet, left: Vec<Scaling> },
    /// The Pods as they are after that.
    Counting { rs: ReplicaSet },
    /// The write of the status.
    Reporting,
}

/// What a `Stage` holds.
#[verifier::ext_equal]
pub enum StageView {
    Reading,
    Orphaned,
    Dropping { left: Seq<ScalingView> },
    Claiming { rs: ReplicaSetView },
    Adopting { rs: ReplicaSetView, left: Seq<ClaimView>, owned: Seq<PodView> },
    Resizing { rs: ReplicaSetView, left: Seq<ScalingView> },
    Counting { rs: ReplicaSetView },
    Reporting,
}

impl DeepView for Stage {
    type V = StageView;

    open spec fn deep_view(&self) -> StageView {
        match self {
            Stage::Reading => StageView::Reading,
            Stage::Orphaned => StageView::Orphaned,
            Stage::Dropping { left } => StageView::Dropping { left: left.deep_view() },
            Stage::Claiming { rs } => StageView::Claiming { rs: rs.deep_view() },
            Stage::Adopting { rs, left, owned } => StageView::Adopting {
                rs: rs.deep_view(),
                left: left.deep_view(),
                owned: owned.deep_view(),
            },
            Stage::Resizing { rs, left } => StageView::Resizing {
                rs: rs.deep_view(),
                left: left.deep_view(),
            },
            Stage::Counting { rs } => StageView::Counting { rs: rs.deep_view() },
            Stage::Reporting => StageView::Reporting,
        }
    }
}

pub open spec fn scaling_request(write: ScalingView) -> RequestView {
    match write {
        ScalingView::Create(pod) => RequestView::CreatePod(pod),
        ScalingView::Delete { name, rv } => RequestView::DeletePod { name, rv },
    }
}

fn request_for(write: Scaling) -> (r: Request)
    ensures
        r.deep_view() == scaling_request(write.deep_view()),
{
    match write {
        Scaling::Create(pod) => Request::CreatePod(pod),
        Scaling::Delete { name, rv } => Request::DeletePod { name, rv },
    }
}

/// The deletions are made one by one, and then the round ends.
pub open spec fn dropped(left: Seq<ScalingView>) -> ProgressView<StageView> {
    if left.len() == 0 {
        ProgressView::Finished
    } else {
        ProgressView::Ask(
            scaling_request(left[0]),
            StageView::Dropping { left: left.remove(0) },
        )
    }
}

fn drop_next(left: Vec<Scaling>) -> (p: Progress<Stage>)
    ensures
        p.deep_view() == dropped(left.deep_view()),
{
    if left.len() == 0 {
        return Progress::Finished;
    }
    let ghost all = left.deep_view();
    let mut left = left;
    let first = left.remove(0);
    assert(left.deep_view() =~= all.remove(0));
    Progress::Ask(request_for(first), Stage::Dropping { left })
}

/// The writes are made one by one, and then the Pods are counted.
pub open spec fn resized(rs: ReplicaSetView, left: Seq<ScalingView>) -> ProgressView<StageView> {
    if left.len() == 0 {
        ProgressView::Ask(RequestView::ListPods, StageView::Counting { rs })
    } else {
        ProgressView::Ask(
            scaling_request(left[0]),
            StageView::Resizing { rs, left: left.remove(0) },
        )
    }
}

fn resize_next(rs: ReplicaSet, left: Vec<Scaling>) -> (p: Progress<Stage>)
    ensures
        p.deep_view() == resized(rs.deep_view(), left.deep_view()),
{
    if left.len() == 0 {
        return Progress::Ask(Request::ListPods, Stage::Counting { rs });
    }
    let ghost all = left.deep_view();
    let mut left = left;
    let first = left.remove(0);
    assert(left.deep_view() =~= all.remove(0));
    Progress::Ask(request_for(first), Stage::Resizing { rs, left })
}

/// Claims are settled in their order: a Pod that is owned counts, one that is
/// to be adopted is first written. With none left, the Pods that count are
/// brought to the number asked for.
pub open spec fn settled(
    rs: ReplicaSetView,
    left: Seq<ClaimView>,
    owned: Seq<PodView>,
    p: ProgressView<StageView>,
) -> bool
    decreases left.len(),
{
    if left.len() == 0 {
        exists|plan: Seq<ScalingView>|
            #[trigger] is_scaling(rs, owned, plan) && p == resized(rs, plan)
    } else {
        match left[0] {
            ClaimView::Owned(pod) => settled(rs, left.remove(0), owned.push(pod), p),
            ClaimView::Adopt(pod) => p == ProgressView::Ask(
                RequestView::ReplacePodSpec(pod),
                StageView::Adopting { rs, left: left.remove(0), owned },
            ),
        }
    }
}

fn settle_next(rs: ReplicaSet, left: Vec<Claim>, owned: Vec<Pod>) -> (p: Progress<Stage>)
    ensures
        settled(rs.deep_view(), left.deep_view(), owned.deep_view(), p.deep_view()),
    decreases left@.len(),
{
    if left.len() == 0 {
        let plan = scale(&rs, &owned);
        return resize_next(rs, plan);
    }
    let ghost all = left.deep_view();
    let mut left = left;
    let first = left.remove(0);
    assert(all[0] == first.deep_view());
    assert(left.deep_view() =~= all.remove(0));
    match first {
        Claim::Owned(pod) => {
            let ghost before = owned.deep_view();
            let mut owned = owned;
            let ghost counted = pod.deep_view();
            owned.push(pod);
            assert(owned.deep_view() =~= before.push(counted));
            settle_next(rs, left, owned)
        },
        Claim::Adopt(pod) => Progress::Ask(
            Request::ReplacePodSpec(pod),
            Stage::Adopting { rs, left, owned },
        ),
    }
}

/// How a round goes on once a reply is there. An adoption, creation or
/// deletion that failed is passed over: the next round makes up for it.
pub open spec fn next_stage(
    rs_name: Seq<char>,
    stage: StageView,
    reply: ReplyView,
    p: ProgressView<StageView>,
) -> bool {
    match (stage, reply) {
        (StageView::Reading, ReplyView::ReplicaSet(None)) => p == ProgressView::Ask(
            RequestView::ListPods,
            StageView::Orphaned,
        ),
        (StageView::Reading, ReplyView::ReplicaSet(Some(rs))) => p == ProgressView::Ask(
            RequestView::ListPods,
            StageView::Claiming { rs },
        ),
        (StageView::Orphaned, ReplyView::Pods(pods)) => p == dropped(cascade_of(pods, rs_name)),
        (StageView::Dropping { left }, _) => p == dropped(left),
        (StageView::Claiming { rs }, ReplyView::Pods(pods)) => settled(
            rs,
            claims_on(pods, rs_name, rs),
            Seq::empty(),
            p,
        ),
        (StageView::Adopting { rs, left, owned }, ReplyView::Pod(Some(pod))) => settled(
            rs,
            left,
            owned.push(pod),
            p,
        ),
        (StageView::Adopting { rs, left, owned }, _) => settled(rs, left, owned, p),
        (StageView::Resizing { rs, left }, _) => p == resized(rs, left),
        (StageView::Counting { rs }, ReplyView::Pods(pods)) => match status_write(
            rs_name,
            rs,
            pods,
        ) {
            None => p == ProgressView::<StageView>::Finished,
            Some((status, rv)) => p == ProgressView::Ask(
                RequestView::ReplaceReplicaSetStatus { name: rs_name, status, rv },
                StageView::Reporting,
            ),
        },
        (StageView::Reporting, ReplyView::Failed(e)) => p == ProgressView::<StageView>::Aborted(e),
        (StageView::Reporting, _) => p == ProgressView::<StageView>::Finished,
        (_, _) => p == ProgressView::<StageView>::Aborted(request::broken_off(reply)),
    }
}

/// The first request of a round over a ReplicaSet.
pub fn start(rs_name: &str) -> (p: Progress<Stage>)
    ensures
        p.deep_view() == ProgressView::Ask(
            RequestView::GetReplicaSet(rs_name@),
            StageView::Reading,
        ),
{
    Progress::Ask(Request::GetReplicaSet(rs_name.to_owned()), Stage::Reading)
}

/// Takes a round over a ReplicaSet one reply further.
pub fn reconcile(rs_name: &str, stage: Stage, reply: Reply) -> (p: Progress<Stage>)
    ensures
        next_stage(rs_name@, stage.deep_view(), reply.deep_view(), p.deep_view()),
{
    match (stage, reply) {
        (Stage::Reading, Reply::ReplicaSet(None)) => Progress::Ask(
            Request::ListPods,
            Stage::Orphaned,
        ),
        (Stage::Reading, Reply::ReplicaSet(Some(rs))) => Progress::Ask(
            Request::ListPods,
            Stage::Claiming { rs },
        ),
        (Stage::Orphaned, Reply::Pods(pods)) => drop_next(cascade_delete(&pods, rs_name)),
        (Stage::Dropping { left }, _) => drop_next(left),
        (Stage::Claiming { rs }, Reply::Pods(pods)) => {
            let found = claims(&pods, rs_name, &rs);
            let none: Vec<Pod> = Vec::new();
            assert(none.deep_view() =~= Seq::<PodView>::empty());
            settle_next(rs, found, none)
        },
        (Stage::Adopting { rs, left, owned }, Reply::Pod(Some(pod))) => {
            let ghost before = owned.deep_view();
            let ghost adopted = pod.deep_view();
            let mut owned = owned;
            owned.push(pod);
            assert(owned.deep_view() =~= before.push(adopted));
            settle_next(rs, left, owned)
        },
        (Stage::Adopting { rs, left, owned }, _) => settle_next(rs, left, owned),
        (Stage::Resizing { rs, left }, _) => resize_next(rs, left),
        (Stage::Counting { rs }, Reply::Pods(pods)) => match update_status(rs_name, &rs, &pods) {
            None => Progress::Finished,
            Some((status, rv)) => Progress::Ask(
                Request::ReplaceReplicaSetStatus { name: rs_name.to_owned(), status, rv },
                Stage::Reporting,
            ),
        },
        (Stage::Reporting, Reply::Failed(e)) => Progress::Aborted(e),
        (Stage::Reporting, _) => Progress::Finished,
        (_, reply) => Progress::Aborted(break_off(reply)),
    }
}

/// How far a stage is from a round's end.
pub open spec fn distance(stage: StageView) -> nat {
    match stage {
        StageView::Reading => 6,
        StageView::Claiming { .. } => 5,
        StageView::Adopting { .. } => 4,
        StageView::Resizing { .. } => 3,
        StageView::Counting { .. } => 2,
        StageView::Orphaned => 2,
        StageView::Dropping { .. } => 1,
        StageView::Reporting => 1,
    }
}

/// How much is left to do at a stage.
pub open spec fn work_left(stage: StageView) -> nat {
    match stage {
        StageView::Adopting { left, .. } => left.len(),
        StageView::Resizing { left, .. } => left.len(),
        StageView::Dropping { left } => left.len(),
        _ => 0,
    }
}

/// Law: every round ends, whatever is replied. Each reply brings it to a later
/// stage, or leaves less to do at the same one.
pub proof fn rounds_end(
    rs_name: Seq<char>,
    stage: StageView,
    reply: ReplyView,
    p: ProgressView<StageView>,
)
    requires
        next_stage(rs_name, stage, reply, p),
    ensures
        match p {
            ProgressView::Ask(_, later) => distance(later) < distance(stage) || distance(later)
                == distance(stage) && work_left(later) < work_left(stage),
            _ => true,
        },
{
    match (stage, reply) {
        (StageView::Claiming { rs }, ReplyView::Pods(pods)) => {
            settling_shortens(rs, claims_on(pods, rs_name, rs), Seq::empty(), p);
        },
        (StageView::Adopting { rs, left, owned }, ReplyView::Pod(Some(pod))) => {
            settling_shortens(rs, left, owned.push(pod), p);
        },
        (StageView::Adopting { rs, left, owned }, _) => {
            settling_shortens(rs, left, owned, p);
        },
        _ => {},
    }
}

proof fn settling_shortens(
    rs: ReplicaSetView,
    left: Seq<ClaimView>,
    owned: Seq<PodView>,
    p: ProgressView<StageView>,
)
    requires
        settled(rs, left, owned, p),
    ensures
        match p {
            ProgressView::Ask(_, later) => distance(later) <= 3 || later is Adopting && work_left(
                later,
            ) < left.len(),
            _ => false,
        },
    decreases left.len(),
{
    if left.len() > 0 {
        if let ClaimView::Owned(pod) = left[0] {
            settling_shortens(rs, left.remove(0), owned.push(pod), p);
        }
    }
}

/// The Pods that claims are on.
pub open spec fn claimed(left: Seq<ClaimView>) -> Seq<PodView> {
    Seq::new(
        left.len(),
        |i: int|
            match left[i] {
                ClaimView::Owned(pod) => pod,
                ClaimView::Adopt(pod) => pod,
            },
    )
}

/// What is planned for some Pods is under way.
pub open spec fn scales(
    rs: ReplicaSetView,
    pods: Seq<PodView>,
    p: ProgressView<StageView>,
) -> bool {
    exists|plan: Seq<ScalingView>|
        #[trigger] is_scaling(rs, pods, plan) && p == resized(rs, plan)
}

/// Law: every claim counts. Settling ends in scaling with all Pods that were
/// claimed, or awaits an adoption; once that succeeds, the same Pods are
/// counted or left to settle as before it.
pub proof fn every_claim_counts(
    rs: ReplicaSetView,
    left: Seq<ClaimView>,
    owned: Seq<PodView>,
    p: ProgressView<StageView>,
)
    requires
        settled(rs, left, owned, p),
    ensures
        match p {
            ProgressView::Ask(
                RequestView::ReplacePodSpec(pod),
                StageView::Adopting { rs: same, left: later, owned: counted },
            ) => same == rs && counted.push(pod) + claimed(later) == owned + claimed(left),
            _ => scales(rs, owned + claimed(left), p),
        },
    decreases left.len(),
{
    if left.len() == 0 {
        assert(owned + claimed(left) =~= owned);
        let plan = choose|plan: Seq<ScalingView>|
            #[trigger] is_scaling(rs, owned, plan) && p == resized(rs, plan);
        assert(scales(rs, owned + claimed(left), p));
    } else {
        let rest = left.remove(0);
        match left[0] {
            ClaimView::Owned(pod) => {
                every_claim_counts(rs, rest, owned.push(pod), p);
                assert(owned.push(pod) + claimed(rest) =~= owned + claimed(left));
            },
            ClaimView::Adopt(pod) => {
                assert(owned.push(pod) + claimed(rest) =~= owned + claimed(left));
            },
        }
    }
}

/// Whether a write deletes one of some Pods, in the version it was read in.
pub open spec fn deletes_one_of(write: ScalingView, pods: Seq<PodView>) -> bool {
    exists|i: int|
        0 <= i < pods.len() && (#[trigger] pods[i]).metadata.resource_version is Some && write
            == (ScalingView::Delete {
            name: pods[i].metadata.name,
            rv: pods[i].metadata.resource_version->0,
        })
}

/// Whether a write deletes one of some Pods that a ReplicaSet controls.
pub open spec fn deletes_own(write: ScalingView, pods: Seq<PodView>, rs_name: Seq<char>) -> bool {
    exists|i: int|
        0 <= i < pods.len() && owned(#[trigger] pods[i], rs_name)
            && pods[i].metadata.resource_version is Some && write == (ScalingView::Delete {
            name: pods[i].metadata.name,
            rv: pods[i].metadata.resource_version->0,
        })
}

proof fn deletions_are_of_the_pods(pods: Seq<PodView>, k: int)
    requires
        0 <= k < deletions(pods).len(),
    ensures
        deletes_one_of(deletions(pods)[k], pods),
    decreases pods.len(),
{
    let front = deletions(pods.drop_last());
    if k < front.len() {
        deletions_are_of_the_pods(pods.drop_last(), k);
        let i = choose|i: int|
            0 <= i < pods.len() - 1 && (#[trigger] pods.drop_last()[i]).metadata.resource_version
                is Some && front[k] == (ScalingView::Delete {
                name: pods.drop_last()[i].metadata.name,
                rv: pods.drop_last()[i].metadata.resource_version->0,
            });
        assert(pods[i] == pods.drop_last()[i]);
    } else {
        assert(pods[pods.len() - 1] == pods.last());
    }
}

/// Law: a ReplicaSet deletes only Pods that it controls: those it counted, when
/// there are too many, and those listed as its own, when it is gone. It creates
/// none then.
pub proof fn only_own_pods_are_deleted(
    rs: ReplicaSetView,
    counted: Seq<PodView>,
    plan: Seq<ScalingView>,
    rs_name: Seq<char>,
    pods: Seq<PodView>,
    k: int,
)
    requires
        is_scaling(rs, counted, plan),
    ensures
        0 <= k < plan.len() && plan[k] is Delete ==> deletes_one_of(plan[k], counted),
        0 <= k < cascade_of(pods, rs_name).len() ==> deletes_own(
            cascade_of(pods, rs_name)[k],
            pods,
            rs_name,
        ),
{
    let mine = |p: PodView| owned(p, rs_name);
    let own = pods.filter(mine);
    if 0 <= k < cascade_of(pods, rs_name).len() {
        deletions_are_of_the_pods(own, k);
        let write = cascade_of(pods, rs_name)[k];
        let i = choose|i: int|
            0 <= i < own.len() && (#[trigger] own[i]).metadata.resource_version is Some && write
                == (ScalingView::Delete {
                name: own[i].metadata.name,
                rv: own[i].metadata.resource_version->0,
            });
        pods.lemma_filter_pred(mine, i);
        pods.lemma_filter_contains_rev(mine, own[i]);
        let j = choose|j: int| 0 <= j < pods.len() && pods[j] == own[i];
        assert(owned(pods[j], rs_name));
    }
    if 0 <= k < plan.len() && plan[k] is Delete {
        if counted.len() < rs.spec.replicas {
            assert(creates_one(rs, plan[k]));
        } else {
            let sorted = order::sorted::<Pod>(counted);
            order::sorting_orders::<Pod>(counted);
            let gone = sorted.take(counted.len() - rs.spec.replicas);
            deletions_are_of_the_pods(gone, k);
            let i = choose|i: int|
                0 <= i < gone.len() && (#[trigger] gone[i]).metadata.resource_version is Some
                    && plan[k] == (ScalingView::Delete {
                    name: gone[i].metadata.name,
                    rv: gone[i].metadata.resource_version->0,
                });
            assert(gone[i] == sorted[i]);
            vstd::seq_lib::to_multiset_contains(sorted, sorted[i]);
            vstd::seq_lib::to_multiset_contains(counted, sorted[i]);
            assert(counted.contains(sorted[i]));
            let j = choose|j: int| 0 <= j < counted.len() && counted[j] == sorted[i];
            assert(counted[j].metadata.resource_version is Some);
        }
    }
}

/// Some Pods in two parts, of which the second has none that is older than one of
/// the first.
pub open spec fn parted_by_age(
    pods: Seq<PodView>,
    first: Seq<PodView>,
    second: Seq<PodView>,
) -> bool {
    &&& (first + second).to_multiset() == pods.to_multiset()
    &&& forall|i: int, j: int|
        0 <= i < first.len() && 0 <= j < second.len() ==> !older(
            (#[trigger] second[j]).metadata.creation_timestamp,
            (#[trigger] first[i]).metadata.creation_timestamp,
        )
}

/// Law: where there are too many Pods, the oldest ones are deleted: none that
/// stays is older than one that goes.
pub proof fn the_oldest_are_deleted(
    rs: ReplicaSetView,
    counted: Seq<PodView>,
    plan: Seq<ScalingView>,
)
    requires
        is_scaling(rs, counted, plan),
        counted.len() >= rs.spec.replicas,
    ensures
        exists|gone: Seq<PodView>, kept: Seq<PodView>| #[trigger]
            parted_by_age(counted, gone, kept) && plan == deletions(gone) && kept.len()
                == rs.spec.replicas,
{
    let sorted = order::sorted::<Pod>(counted);
    order::sorting_orders::<Pod>(counted);
    let n = counted.len() - rs.spec.replicas;
    let gone = sorted.take(n);
    let kept = sorted.skip(n);
    assert(gone + kept =~= sorted);
    assert forall|i: int, j: int| 0 <= i < gone.len() && 0 <= j < kept.len() implies !older(
        (#[trigger] kept[j]).metadata.creation_timestamp,
        (#[trigger] gone[i]).metadata.creation_timestamp,
    ) by {
        assert(gone[i] == sorted[i] && kept[j] == sorted[n + j]);
        assert(!<Pod as Sortable>::precedes(sorted[n + j], sorted[i]));
    }
    assert(parted_by_age(counted, gone, kept));
}

/// Law: every Pod that a ReplicaSet makes is what its template asks for: it has
/// the template's labels and spec, and nothing more than a name and an owner. The
/// name is the ReplicaSet's, a hyphen and five hexadecimal digits; the owner is
/// the ReplicaSet, which alone controls it.
pub proof fn made_pods_follow_the_template(
    rs: ReplicaSetView,
    counted: Seq<PodView>,
    plan: Seq<ScalingView>,
    i: int,
)
    requires
        is_scaling(rs, counted, plan),
        0 <= i < plan.len(),
        plan[i] is Create,
    ensures
        ({
            let pod = plan[i]->Create_0;
            let n = rs.metadata.name.len() as int;
            let owners = pod.metadata.owner_references;
            &&& pod.metadata.labels == rs.spec.template.metadata.labels
            &&& pod.spec == rs.spec.template.spec
            &&& pod.status is None
            &&& pod.api_version == "v1"@
            &&& pod.kind == "Pod"@
            &&& pod.metadata.name.len() == n + 6
            &&& pod.metadata.name.take(n) == rs.metadata.name
            &&& pod.metadata.name[n] == '-'
            &&& forall|k: int|
                n < k < n + 6 ==> ('0' <= #[trigger] pod.metadata.name[k] <= '9' || 'a'
                    <= pod.metadata.name[k] <= 'f')
            &&& owners.len() == 1
            &&& owners[0].api_version == "apps/v1"@
            &&& owners[0].kind == "ReplicaSet"@
            &&& owners[0].name == rs.metadata.name
            &&& owners[0].controller
            &&& rs.metadata.uid matches Some(uid) ==> owners[0].uid == uid
            &&& pod.metadata.uid is None
            &&& pod.metadata.resource_version is None
            &&& counted.len() < rs.spec.replicas
        }),
{
    if counted.len() >= rs.spec.replicas {
        let gone = order::sorted::<Pod>(counted).take(counted.len() - rs.spec.replicas);
        deletions_are_of_the_pods(gone, i);
        assert(false);
    }
    assert(creates_one(rs, plan[i]));
    let suffix = choose|suffix: Seq<char>|
        is_suffix(suffix) && plan[i] == ScalingView::Create(#[trigger] templated(rs, suffix));
    let pod = plan[i]->Create_0;
    let n = rs.metadata.name.len() as int;
    reveal_strlit("-");
    assert(pod.metadata.name == rs.metadata.name + "-"@ + suffix);
    assert(pod.metadata.name.take(n) =~= rs.metadata.name);
    assert(pod.metadata.name[n] == "-"@[0]);
    assert forall|k: int| n < k < n + 6 implies ('0' <= #[trigger] pod.metadata.name[k] <= '9'
        || 'a' <= pod.metadata.name[k] <= 'f') by {
        assert(pod.metadata.name[k] == suffix[k - n - 1]);
        assert(identity::lower_hex(suffix[k - n - 1]));
    }
}

/// Law: a Pod counts for a ReplicaSet if one of its owners is the ReplicaSet, by
/// name, as its controller. It is adopted if it has no controller and bears every
/// label of the selector; its adoption adds the ReplicaSet to its owners and
/// changes nothing else. All other Pods are left alone.
pub proof fn claims_go_by_owner_and_labels(pod: PodView, rs_name: Seq<char>, rs: ReplicaSetView)
    ensures
        ({
            let owners = pod.metadata.owner_references;
            let own = exists|i: int|
                0 <= i < owners.len() && (#[trigger] owners[i]).kind == "ReplicaSet"@
                    && owners[i].controller && owners[i].name == rs_name;
            let free = forall|i: int| 0 <= i < owners.len() ==> !(#[trigger] owners[i]).controller;
            let wanted = forall|k: Seq<char>| #[trigger]
                rs.spec.selector.match_labels.contains_key(k)
                    ==> pod.metadata.labels.contains_key(k) && pod.metadata.labels[k]
                    == rs.spec.selector.match_labels[k];
            match claim_on(pod, rs_name, rs) {
                Some(ClaimView::Owned(p)) => own && p == pod,
                Some(ClaimView::Adopt(p)) => {
                    let now = p.metadata.owner_references;
                    &&& !own && free && wanted
                    &&& now.len() == owners.len() + 1
                    &&& now.drop_last() == owners
                    &&& now.last().kind == "ReplicaSet"@
                    &&& now.last().name == rs.metadata.name
                    &&& now.last().controller
                    &&& rs.metadata.uid matches Some(uid) ==> now.last().uid == uid
                    &&& p.spec == pod.spec
                    &&& p.status == pod.status
                    &&& p.api_version == pod.api_version
                    &&& p.kind == pod.kind
                    &&& p.metadata == (MetaView { owner_references: now, ..pod.metadata })
                },
                None => !own && !(free && wanted),
            }
        }),
{
    let owners = pod.metadata.owner_references;
    if owned(pod, rs_name) {
        let i = choose|i: int|
            0 <= i < owners.len() && controls(#[trigger] owners[i]) && owners[i].name == rs_name;
        assert(owners[i].kind == "ReplicaSet"@ && owners[i].controller);
    } else {
        assert forall|i: int| 0 <= i < owners.len() implies !((
        #[trigger] owners[i]).kind == "ReplicaSet"@ && owners[i].controller && owners[i].name
            == rs_name) by {
            assert(!(controls(owners[i]) && owners[i].name == rs_name));
        }
        if adoptable(pod, rs) {
            assert(adopted(pod, rs).metadata.owner_references.drop_last() =~= owners);
        } else if !has_controller(pod) {
            let m = rs.spec.selector.match_labels;
            assert(!m.submap_of(pod.metadata.labels));
            assert(exists|k: Seq<char>| #[trigger]
                m.contains_key(k) && !(pod.metadata.labels.contains_key(k)
                    && pod.metadata.labels[k] == m[k]));
        } else {
            let i = choose|i: int| 0 <= i < owners.len() && (#[trigger] owners[i]).controller;
            assert(owners[i].controller);
        }
    }
}

/// Law: a listed Pod gives one claim at most, the claims come in the order of the
/// list, and no Pod that can be claimed is passed over.
pub proof fn every_pod_is_looked_at(
    pods: Seq<PodView>,
    more: PodView,
    rs_name: Seq<char>,
    rs: ReplicaSetView,
)
    ensures
        claims_on(Seq::empty(), rs_name, rs).len() == 0,
        claims_on(pods.push(more), rs_name, rs) == (match claim_on(more, rs_name, rs) {
            Some(c) => claims_on(pods, rs_name, rs).push(c),
            None => claims_on(pods, rs_name, rs),
        }),
{
    assert(pods.push(more).drop_last() =~= pods);
}

/// Law: the status counts the Pods that the ReplicaSet controls and, of these, the
/// ready ones; it bears the generation it was observed at. One more Pod counts for
/// as much as it is.
pub proof fn status_counts_pods(
    rs_name: Seq<char>,
    rs: ReplicaSetView,
    pods: Seq<PodView>,
    more: PodView,
)
    requires
        pods.len() < u32::MAX,
    ensures
        ({
            let none = observed_status(rs_name, rs, Seq::empty());
            let less = observed_status(rs_name, rs, pods);
            let all = observed_status(rs_name, rs, pods.push(more));
            let own = exists|i: int|
                0 <= i < more.metadata.owner_references.len() && (
                #[trigger] more.metadata.owner_references[i]).kind == "ReplicaSet"@
                    && more.metadata.owner_references[i].controller
                    && more.metadata.owner_references[i].name == rs_name;
            let up = more.status matches Some(s) && s.phase == PodPhase::Running
                && s.container_statuses.len() > 0 && (forall|i: int|
                0 <= i < s.container_statuses.len() ==> (
                #[trigger] s.container_statuses[i]).ready);
            &&& none.replicas == 0
            &&& none.ready_replicas == 0
            &&& all.replicas == less.replicas + if own {
                1int
            } else {
                0
            }
            &&& all.ready_replicas == less.ready_replicas + if own && up {
                1int
            } else {
                0
            }
            &&& all.observed_generation == (match rs.metadata.generation {
                Some(g) => g,
                None => 0,
            })
        }),
{
    reveal(Seq::filter);
    let mine = |p: PodView| owned(p, rs_name);
    let fit = |p: PodView| ready(p);
    let all = pods.push(more);
    assert(all.drop_last() =~= pods);
    pods.lemma_filter_len(mine);
    pods.filter(mine).lemma_filter_len(fit);
    assert(pods.filter(mine).push(more).drop_last() =~= pods.filter(mine));
    assert(Seq::<PodView>::empty().filter(mine) =~= Seq::empty());
    let owners = more.metadata.owner_references;
    if owned(more, rs_name) {
        let i = choose|i: int|
            0 <= i < owners.len() && controls(#[trigger] owners[i]) && owners[i].name == rs_name;
        assert(owners[i].kind == "ReplicaSet"@ && owners[i].controller);
    } else {
        assert forall|i: int| 0 <= i < owners.len() implies !((
        #[trigger] owners[i]).kind == "ReplicaSet"@ && owners[i].controller && owners[i].name
            == rs_name) by {
            assert(!(controls(owners[i]) && owners[i].name == rs_name));
        }
    }
}

/// Law: a ReplicaSet controls the Pods it makes and the Pods it adopts, and
/// these are found again by its name.
pub proof fn made_and_adopted_pods_are_owned(
    rs: ReplicaSetView,
    suffix: Seq<char>,
    pod: PodView,
)
    ensures
        owned(templated(rs, suffix), rs.metadata.name),
        controlling(templated(rs, suffix).metadata.owner_references) == Some(rs.metadata.name),
        adoptable(pod, rs) ==> owned(adopted(pod, rs), rs.metadata.name) && controlling(
            adopted(pod, rs).metadata.owner_references,
        ) == Some(rs.metadata.name),
{
    let made = templated(rs, suffix).metadata.owner_references;
    assert(controls(made[0]));
    if adoptable(pod, rs) {
        let refs = pod.metadata.owner_references;
        let now = adopted(pod, rs).metadata.owner_references;
        assert(controls(now[refs.len() as int]));
        only_the_last_controls(now);
    }
}

proof fn only_the_last_controls(owners: Seq<OwnerReferenceView>)
    requires
        owners.len() > 0,
        controls(owners.last()),
        forall|i: int| 0 <= i < owners.len() - 1 ==> !(#[trigger] owners[i]).controller,
    ensures
        controlling(owners) == Some(owners.last().name),
    decreases owners.len(),
{
    if owners.len() > 1 {
        let rest = owners.skip(1);
        assert(!owners[0].controller);
        assert(rest.last() == owners.last());
        assert forall|i: int| 0 <= i < rest.len() - 1 implies !(#[trigger] rest[i]).controller by {
            assert(rest[i] == owners[i + 1]);
        }
        only_the_last_controls(rest);
    }
}

/// Law: no ReplicaSet takes a Pod from another. A Pod that is controlled is
/// never adopted.
pub proof fn controlled_pods_are_left_alone(
    pod: PodView,
    holder: Seq<char>,
    rs_name: Seq<char>,
    rs: ReplicaSetView,
)
    requires
        owned(pod, holder),
        !owned(pod, rs_name),
    ensures
        claim_on(pod, rs_name, rs) is None,
{
    let i = choose|i: int|
        0 <= i < pod.metadata.owner_references.len() && controls(
            #[trigger] pod.metadata.owner_references[i],
        ) && pod.metadata.owner_references[i].name == holder;
    assert(pod.metadata.owner_references[i].controller);
}

/// Law: a ReplicaSet with the Pods it asks for, and its status written, wants
/// nothing.
pub proof fn settled_means_no_writes(
    rs_name: Seq<char>,
    rs: ReplicaSetView,
    pods: Seq<PodView>,
    plan: Seq<ScalingView>,
)
    requires
        pods.filter(|p: PodView| owned(p, rs_name)).len() == rs.spec.replicas,
        is_scaling(rs, pods.filter(|p: PodView| owned(p, rs_name)), plan),
        rs.status == Some(observed_status(rs_name, rs, pods)),
    ensures
        plan.len() == 0,
        status_write(rs_name, rs, pods) is None,
{
    let mine = pods.filter(|p: PodView| owned(p, rs_name));
    order::sorting_orders::<Pod>(mine);
    assert(order::sorted::<Pod>(mine).take(0) =~= Seq::<PodView>::empty());
}

/// Law: carried out in full, a plan leads to the number of Pods asked for. As
/// many are made as are missing, and of stored Pods as many are deleted as are
/// too many.
pub proof fn scaling_reaches_the_number(
    rs: ReplicaSetView,
    owned: Seq<PodView>,
    plan: Seq<ScalingView>,
)
    requires
        is_scaling(rs, owned, plan),
        forall|i: int|
            0 <= i < owned.len() ==> (#[trigger] owned[i]).metadata.resource_version is Some,
    ensures
        owned.len() <= rs.spec.replicas ==> owned.len() + plan.len() == rs.spec.replicas,
        owned.len() >= rs.spec.replicas ==> owned.len() - plan.len() == rs.spec.replicas,
{
    if owned.len() >= rs.spec.replicas {
        let sorted = order::sorted::<Pod>(owned);
        order::sorting_orders::<Pod>(owned);
        let gone = sorted.take(owned.len() - rs.spec.replicas);
        assert forall|i: int| 0 <= i < gone.len() implies (
        #[trigger] gone[i]).metadata.resource_version is Some by {
            assert(gone[i] == sorted[i]);
            vstd::seq_lib::to_multiset_contains(sorted, sorted[i]);
            vstd::seq_lib::to_multiset_contains(owned, sorted[i]);
            assert(sorted.contains(sorted[i]));
            assert(owned.contains(sorted[i]));
        }
        stored_pods_are_all_deleted(gone);
    }
}

proof fn stored_pods_are_all_deleted(pods: Seq<PodView>)
    requires
        forall|i: int|
            0 <= i < pods.len() ==> (#[trigger] pods[i]).metadata.resource_version is Some,
    ensures
        deletions(pods).len() == pods.len(),
    decreases pods.len(),
{
    if pods.len() > 0 {
        assert(pods[pods.len() - 1].metadata.resource_version is Some);
        let front = pods.drop_last();
        assert forall|i: int| 0 <= i < front.len() implies (
        #[trigger] front[i]).metadata.resource_version is Some by {
            assert(front[i] == pods[i]);
        }
        stored_pods_are_all_deleted(front);
    }
}

/// Law: what a plan creates is what the template asks for, with the ReplicaSet as
/// its controller; there is as much of it as is missing. Where there are too many
/// Pods nothing is created.
pub proof fn plans_create_from_the_template(
    rs: ReplicaSet,
    counted: Vec<Pod>,
    plan: Vec<Scaling>,
    i: int,
)
    requires
        call_ensures(scale, (&rs, &counted), plan),
        0 <= i < plan@.len(),
    ensures
        counted@.len() < rs.spec.replicas ==> plan@.len() == rs.spec.replicas - counted@.len(),
        plan@[i] is Create <==> counted@.len() < rs.spec.replicas,
        plan@[i] matches Scaling::Create(pod) ==> {
            &&& pod.metadata.labels@ == rs.spec.template.metadata.labels@
            &&& pod.spec.containers.deep_view() == rs.spec.template.spec.containers.deep_view()
            &&& pod.spec.node_name.deep_view() == rs.spec.template.spec.node_name.deep_view()
            &&& pod.status is None
            &&& pod.metadata.owner_references@.len() == 1
            &&& pod.metadata.owner_references@[0].name@ == rs.metadata.name@
            &&& pod.metadata.owner_references@[0].kind@ == "ReplicaSet"@
            &&& pod.metadata.owner_references@[0].controller
            &&& pod.metadata.name@.len() == rs.metadata.name@.len() + 6
            &&& pod.metadata.name@.take(rs.metadata.name@.len() as int) == rs.metadata.name@
        },
{
    let steps = plan.deep_view();
    assert(steps[i] == plan@[i].deep_view());
    assert(counted.deep_view().len() == counted@.len());
    if counted@.len() < rs.spec.replicas {
        assert(creates_one(rs.deep_view(), steps[i]));
    } else {
        let gone = order::sorted::<Pod>(counted.deep_view()).take(
            counted@.len() - rs.spec.replicas,
        );
        deletions_are_of_the_pods(gone, i);
    }
    if let Scaling::Create(pod) = plan@[i] {
        made_pods_follow_the_template(rs.deep_view(), counted.deep_view(), steps, i);
        let owners = pod.metadata.owner_references;
        assert(owners.deep_view()[0] == owners@[0].deep_view());
    }
}

/// Law: a new Pod has the template's labels and spec and no other.
pub proof fn new_pods_are_as_the_template(rs: ReplicaSet, suffix: &str, pod: Pod)
    requires
        call_ensures(pod_with_suffix, (&rs, suffix), pod),
    ensures
        pod.metadata.labels@ == rs.spec.template.metadata.labels@,
        pod.spec.containers.deep_view() == rs.spec.template.spec.containers.deep_view(),
        pod.metadata.name@ == rs.metadata.name@ + "-"@ + suffix@,
        pod.metadata.owner_references@.len() == 1,
        pod.metadata.owner_references@[0].name@ == rs.metadata.name@,
        pod.metadata.owner_references@[0].controller,
        pod.status is None,
{
    let owners = pod.metadata.owner_references;
    assert(owners.deep_view().len() == 1);
    assert(owners.deep_view()[0] == owners@[0].deep_view());
}

/// Law: labels satisfy a selector if and only if they hold each of its entries, with
/// the same value; whatever else they hold does not matter.
pub proof fn selectors_ask_for_each_entry(labels: Labels, selector: LabelSelector, r: bool)
    requires
        call_ensures(matches_selector, (&labels, &selector), r),
    ensures
        r <==> forall|k: Seq<char>| #[trigger]
            selector.match_labels@.contains_key(k) ==> labels@.contains_key(k) && labels@[k]
                == selector.match_labels@[k],
{
    submaps_hold_each_entry(selector.match_labels@, labels@);
}

proof fn submaps_hold_each_entry(m: Map<Seq<char>, Seq<char>>, tags: Map<Seq<char>, Seq<char>>)
    ensures
        m.submap_of(tags) <==> forall|k: Seq<char>| #[trigger]
            m.contains_key(k) ==> tags.contains_key(k) && tags[k] == m[k],
{
    if forall|k: Seq<char>| #[trigger]
        m.contains_key(k) ==> tags.contains_key(k) && tags[k] == m[k] {
        assert forall|k: Seq<char>| #[trigger] m.dom().contains(k) implies tags.dom().contains(k)
            && m[k] == tags[k] by {
            assert(m.contains_key(k));
        }
    } else {
        let k = choose|k: Seq<char>| #[trigger]
            m.contains_key(k) && !(tags.contains_key(k) && tags[k] == m[k]);
        assert(m.dom().contains(k));
    }
}

proof fn owners_are_found(pod: Pod, rs_name: Seq<char>)
    ensures
        owned(pod.deep_view(), rs_name) <==> exists|i: int|
            0 <= i < pod.metadata.owner_references@.len() && (
            #[trigger] pod.metadata.owner_references@[i]).kind@ == "ReplicaSet"@
                && pod.metadata.owner_references@[i].controller
                && pod.metadata.owner_references@[i].name@ == rs_name,
{
    let owners = pod.metadata.owner_references;
    let all = pod.deep_view().metadata.owner_references;
    assert(all.len() == owners@.len());
    if owned(pod.deep_view(), rs_name) {
        let i = choose|i: int|
            0 <= i < all.len() && controls(#[trigger] all[i]) && all[i].name == rs_name;
        assert(all[i] == owners@[i].deep_view());
        assert(owners@[i].controller);
    }
    if exists|i: int|
        0 <= i < owners@.len() && (#[trigger] owners@[i]).kind@ == "ReplicaSet"@
            && owners@[i].controller && owners@[i].name@ == rs_name {
        let i = choose|i: int|
            0 <= i < owners@.len() && (#[trigger] owners@[i]).kind@ == "ReplicaSet"@
                && owners@[i].controller && owners@[i].name@ == rs_name;
        assert(all[i] == owners@[i].deep_view());
        assert(controls(all[i]) && all[i].name == rs_name);
    }
}

proof fn controllers_are_found(pod: Pod)
    ensures
        has_controller(pod.deep_view()) <==> exists|i: int|
            0 <= i < pod.metadata.owner_references@.len() && (
            #[trigger] pod.metadata.owner_references@[i]).controller,
{
    let owners = pod.metadata.owner_references;
    let all = pod.deep_view().metadata.owner_references;
    assert(all.len() == owners@.len());
    if has_controller(pod.deep_view()) {
        let i = choose|i: int| 0 <= i < all.len() && (#[trigger] all[i]).controller;
        assert(all[i] == owners@[i].deep_view());
        assert(owners@[i].controller);
    }
    if exists|i: int| 0 <= i < owners@.len() && (#[trigger] owners@[i]).controller {
        let i = choose|i: int| 0 <= i < owners@.len() && (#[trigger] owners@[i]).controller;
        assert(all[i] == owners@[i].deep_view());
        assert(all[i].controller);
    }
}

/// Law: a Pod is owned if one of its owners, whichever it is, is a ReplicaSet of that
/// name that controls it. It can be adopted if none of its owners, of whatever kind,
/// controls it and the selector matches.
pub proof fn ownership_goes_by_controllers(
    pod: Pod,
    rs: ReplicaSet,
    rs_name: &str,
    mine: bool,
    free: bool,
)
    requires
        call_ensures(is_owned_by, (&pod, rs_name), mine),
        call_ensures(can_adopt, (&pod, &rs), free),
    ensures
        mine <==> exists|i: int|
            0 <= i < pod.metadata.owner_references@.len() && (
            #[trigger] pod.metadata.owner_references@[i]).kind@ == "ReplicaSet"@
                && pod.metadata.owner_references@[i].controller
                && pod.metadata.owner_references@[i].name@ == rs_name@,
        free <==> (forall|i: int|
            0 <= i < pod.metadata.owner_references@.len() ==> !(
            #[trigger] pod.metadata.owner_references@[i]).controller) && (forall|k: Seq<char>|
            #[trigger] rs.spec.selector.match_labels@.contains_key(k)
                ==> pod.metadata.labels@.contains_key(k) && pod.metadata.labels@[k]
                == rs.spec.selector.match_labels@[k]),
{
    let m = rs.spec.selector.match_labels@;
    owners_are_found(pod, rs_name@);
    controllers_are_found(pod);
    submaps_hold_each_entry(m, pod.metadata.labels@);
    assert(free == (!has_controller(pod.deep_view()) && m.submap_of(pod.metadata.labels@)));
}

/// Law: a Pod is ready if it runs, has container statuses, and each of them says
/// ready.
pub proof fn readiness_takes_every_container(pod: Pod, r: bool)
    requires
        call_ensures(is_ready, (&pod,), r),
    ensures
        r <==> (pod.status is Some && pod.status->0.phase == PodPhase::Running
            && pod.status->0.container_statuses@.len() > 0 && forall|i: int|
            0 <= i < pod.status->0.container_statuses@.len() ==> (
            #[trigger] pod.status->0.container_statuses@[i]).ready),
{
    if pod.status is Some {
        let list = pod.status->0.container_statuses;
        let all = list.deep_view();
        assert forall|i: int| 0 <= i < list@.len() implies (#[trigger] all[i]).ready
            == list@[i].ready by {}
        assert forall|i: int| 0 <= i < list@.len() implies all[i].ready == (
        #[trigger] list@[i]).ready by {}
    }
}


/// Law: the ReplicaSet that a Pod wakes is the first of its owners that is a
/// ReplicaSet and controls it; a Pod without one wakes none.
pub proof fn pods_wake_their_controller(pod: Pod, key: Option<String>)
    requires
        call_ensures(rs_key_for_pod, (&pod,), key),
    ensures
        match key {
            Some(name) => exists|i: int|
                0 <= i < pod.metadata.owner_references@.len() && (
                #[trigger] pod.metadata.owner_references@[i]).kind@ == "ReplicaSet"@
                    && pod.metadata.owner_references@[i].controller
                    && pod.metadata.owner_references@[i].name@ == name@ && forall|j: int|
                    0 <= j < i ==> !((#[trigger] pod.metadata.owner_references@[j]).kind@
                        == "ReplicaSet"@ && pod.metadata.owner_references@[j].controller),
            None => forall|i: int|
                0 <= i < pod.metadata.owner_references@.len() ==> !((
                #[trigger] pod.metadata.owner_references@[i]).kind@ == "ReplicaSet"@
                    && pod.metadata.owner_references@[i].controller),
        },
{
    let owners = pod.metadata.owner_references;
    let all = pod.deep_view().metadata.owner_references;
    assert(all.len() == owners@.len());
    assert forall|i: int| 0 <= i < owners@.len() implies controls(all[i]) == ((
    #[trigger] owners@[i]).kind@ == "ReplicaSet"@ && owners@[i].controller) && all[i].name
        == owners@[i].name@ by {
        assert(all[i] == owners@[i].deep_view());
    }
    let at = first_controller(all);
    if key is Some {
        assert(owners@[at].name@ == key->0@);
        assert forall|j: int| 0 <= j < at implies !((#[trigger] owners@[j]).kind@ == "ReplicaSet"@
            && owners@[j].controller) by {
            assert(!controls(all[j]));
        }
    } else {
        assert forall|i: int| 0 <= i < owners@.len() implies !((#[trigger] owners@[i]).kind@
            == "ReplicaSet"@ && owners@[i].controller) by {
            assert(!controls(all[i]));
        }
    }
}

proof fn first_controller(owners: Seq<OwnerReferenceView>) -> (at: int)
    ensures
        match controlling(owners) {
            Some(name) => 0 <= at < owners.len() && controls(owners[at]) && owners[at].name == name
                && forall|j: int| 0 <= j < at ==> !controls(#[trigger] owners[j]),
            None => forall|j: int| 0 <= j < owners.len() ==> !controls(#[trigger] owners[j]),
        },
    decreases owners.len(),
{
    if owners.len() == 0 || controls(owners[0]) {
        0
    } else {
        let rest = owners.skip(1);
        let at = first_controller(rest);
        if controlling(rest) is Some {
            assert(rest[at] == owners[at + 1]);
            assert forall|j: int| 0 <= j < at + 1 implies !controls(#[trigger] owners[j]) by {
                if j > 0 {
                    assert(rest[j - 1] == owners[j]);
                }
            }
        } else {
            assert forall|j: int| 0 <= j < owners.len() implies !controls(#[trigger] owners[j]) by {
                if j > 0 {
                    assert(rest[j - 1] == owners[j]);
                }
            }
        }
        at + 1
    }
}


/// Law: of two Pods the older one is that which was made at the earlier time, and
/// one that does not say when is older than one that does.
pub proof fn older_pods_were_made_earlier(a: &Pod, b: &Pod, r: bool)
    requires
        call_ensures(<Pod as Sortable>::is_before, (a, b), r),
    ensures
        r <==> b.metadata.creation_timestamp is Some && (a.metadata.creation_timestamp is None
            || text::text_before(
            a.metadata.creation_timestamp->0@,
            b.metadata.creation_timestamp->0@,
        )),
{
}

} // verus!
