//! What a whole round over a ReplicaSet comes to, against a server that carries
//! out what it is asked: the number of Pods asked for, and nothing left to do.

use vstd::prelude::*;

use crate::apiserver::applier::ReplicaView;
use crate::apiserver::command::ObjectView;
use crate::apiserver::handlers;
use crate::apiserver::handlers::ApiErrorView;
use crate::apiserver::storage;
use crate::apiserver::watch;
use crate::controller::replicaset;
use crate::controller::replicaset::{ClaimView, ScalingView, StageView};
use crate::controller::request::{ProgressView, ReplyView, RequestView};
use crate::identity;
use crate::names;
use crate::order;
use crate::pod::{Pod, PodView};
use crate::replicaset::{ReplicaSet, ReplicaSetView};
use crate::text;

verus! {

/// Pods by their names.
pub type PodMap = Map<Seq<char>, PodView>;

/// The Pods of a server, as they are listed.
pub open spec fn listed(server: ReplicaView) -> Seq<PodView> {
    handlers::pods_on(server, None)
}

/// What a write of a Pod is replied, given what the server made of it.
pub open spec fn pod_replied(r: Result<ObjectView, ApiErrorView>, reply: ReplyView) -> bool {
    match r {
        Ok(o) => o matches ObjectView::Pod(pod) && reply == ReplyView::Pod(Some(pod)),
        Err(_) => reply is Failed,
    }
}

/// A server creates a Pod, with an identity and time of its choice.
pub open spec fn creation_answered(
    before: ReplicaView,
    pod: PodView,
    uid: Seq<char>,
    created: Seq<char>,
    after: ReplicaView,
    reply: ReplyView,
) -> bool {
    let (now, r) = handlers::performed(
        before,
        handlers::create_planned::<Pod>(pod, uid, created),
    );
    identity::is_uid(uid) && after == now && pod_replied(r, reply)
}

/// How a server answers the requests of a round, and what becomes of it.
pub open spec fn answers(
    before: ReplicaView,
    request: RequestView,
    after: ReplicaView,
    reply: ReplyView,
) -> bool {
    match request {
        RequestView::GetReplicaSet(name) => {
            &&& after == before
            &&& reply == ReplyView::ReplicaSet(
                match handlers::read(before.replicasets, name) {
                    Ok(rs) => Some(rs),
                    Err(_) => None,
                },
            )
        },
        RequestView::ListPods => after == before && reply == ReplyView::Pods(listed(before)),
        RequestView::CreatePod(pod) => exists|uid: Seq<char>, created: Seq<char>|
            #[trigger] creation_answered(before, pod, uid, created, after, reply),
        RequestView::ReplacePodSpec(pod) => {
            let (now, r) = handlers::performed(
                before,
                handlers::replace_planned::<Pod>(pod.metadata.name, pod),
            );
            after == now && pod_replied(r, reply)
        },
        RequestView::DeletePod { name, rv } => {
            let (now, r) = handlers::performed(
                before,
                handlers::delete_planned::<Pod>(name, Some(rv)),
            );
            after == now && match r {
                Ok(_) => reply == ReplyView::Done,
                Err(_) => reply is Failed,
            }
        },
        RequestView::ReplaceReplicaSetStatus { name, status, rv } => {
            let (now, r) = handlers::performed(
                before,
                handlers::status_planned::<ReplicaSet>(name, Some(rv), status),
            );
            after == now && match r {
                Ok(o) => o matches ObjectView::ReplicaSet(rs) && reply == ReplyView::ReplicaSet(
                    Some(rs),
                ),
                Err(_) => reply is Failed,
            }
        },
        _ => false,
    }
}

/// A round, reply by reply: how far it had come, and the server then.
pub struct Round {
    pub progress: Seq<ProgressView<StageView>>,
    pub servers: Seq<ReplicaView>,
    pub replies: Seq<ReplyView>,
}

/// A round over a ReplicaSet from its first request to its end, with no one else
/// at the server.
pub open spec fn is_round(rs_name: Seq<char>, round: Round) -> bool {
    let n = round.replies.len();
    &&& round.progress.len() == n + 1
    &&& round.servers.len() == n + 1
    &&& round.progress[0] == ProgressView::Ask(
        RequestView::GetReplicaSet(rs_name),
        StageView::Reading,
    )
    &&& forall|i: int| 0 <= i < n ==> #[trigger] turn(rs_name, round, i)
    &&& !(round.progress[n as int] is Ask)
}

/// One request of a round is answered, and the round goes on.
pub open spec fn turn(rs_name: Seq<char>, round: Round, i: int) -> bool {
    round.progress[i] matches ProgressView::Ask(request, stage) && {
        &&& answers(round.servers[i], request, round.servers[i + 1], round.replies[i])
        &&& replicaset::next_stage(rs_name, stage, round.replies[i], round.progress[i + 1])
    }
}

/// No request of a round fails.
pub open spec fn all_succeed(round: Round) -> bool {
    forall|i: int| 0 <= i < round.replies.len() ==> !((#[trigger] round.replies[i]) is Failed)
}

/// Pods are stored under their names, in a version.
pub open spec fn well_kept(pods: PodMap) -> bool {
    &&& pods.dom().finite()
    &&& forall|n: Seq<char>| #[trigger]
        pods.contains_key(n) ==> pods[n].metadata.name == n
            && pods[n].metadata.resource_version is Some
}

/// The names of the Pods that a ReplicaSet controls.
pub open spec fn mine(pods: PodMap, rs_name: Seq<char>) -> Set<Seq<char>> {
    pods.dom().filter(|n: Seq<char>| replicaset::owned(pods[n], rs_name))
}

proof fn all_pass<V>(s: Seq<V>, pick: spec_fn(V) -> bool)
    requires
        forall|i: int| 0 <= i < s.len() ==> pick(#[trigger] s[i]),
    ensures
        s.filter(pick) == s,
    decreases s.len(),
{
    reveal(Seq::filter);
    if s.len() > 0 {
        let front = s.drop_last();
        assert forall|i: int| 0 <= i < front.len() implies pick(#[trigger] front[i]) by {
            assert(front[i] == s[i]);
        }
        all_pass(front, pick);
        assert(pick(s[s.len() - 1]));
        assert(s =~= front.push(s.last()));
    } else {
        assert(s.filter(pick) =~= s);
    }
}

/// The values of some pairs.
spec fn values(pairs: Seq<(Seq<char>, PodView)>) -> Seq<PodView> {
    Seq::new(pairs.len(), |i: int| pairs[i].1)
}

proof fn owned_values(pairs: Seq<(Seq<char>, PodView)>, rs_name: Seq<char>)
    requires
        names::in_key_order(pairs),
    ensures
        values(pairs).filter(|p: PodView| replicaset::owned(p, rs_name)).len() == mine(
            names::as_map(pairs),
            rs_name,
        ).len(),
        mine(names::as_map(pairs), rs_name).finite(),
    decreases pairs.len(),
{
    reveal(Seq::filter);
    let pick = |p: PodView| replicaset::owned(p, rs_name);
    let pods = names::as_map(pairs);
    names::as_map_holds_pairs(pairs);
    if pairs.len() > 0 {
        let front = pairs.drop_last();
        let last = pairs.last();
        let before = names::as_map(front);
        owned_values(front, rs_name);
        names::as_map_holds_pairs(front);
        assert(before.len() + 1 == pods.len());
        if before.contains_key(last.0) {
            assert(before.insert(last.0, last.1).dom() =~= before.dom());
            assert(false);
        }
        assert(values(pairs).drop_last() =~= values(front));
        assert(values(pairs).last() == last.1);
        if replicaset::owned(last.1, rs_name) {
            assert(mine(pods, rs_name) =~= mine(before, rs_name).insert(last.0));
        } else {
            assert(mine(pods, rs_name) =~= mine(before, rs_name));
        }
    } else {
        assert(mine(pods, rs_name) =~= Set::empty());
    }
}

/// A listing holds every stored Pod, each once.
proof fn listing_is_the_store(server: ReplicaView, rs_name: Seq<char>)
    requires
        well_kept(server.pods.objects),
    ensures
        ({
            let all = listed(server);
            let pods = server.pods.objects;
            &&& forall|i: int|
                0 <= i < all.len() ==> {
                    let name = (#[trigger] all[i]).metadata.name;
                    pods.contains_key(name) && pods[name] == all[i]
                }
            &&& forall|i: int, j: int|
                0 <= i < j < all.len() ==> (#[trigger] all[i]).metadata.name != (
                #[trigger] all[j]).metadata.name
            &&& forall|n: Seq<char>| #[trigger]
                pods.contains_key(n) ==> all.contains(pods[n])
            &&& all.filter(|p: PodView| replicaset::owned(p, rs_name)).len() == mine(
                pods,
                rs_name,
            ).len()
        }),
{
    let pods = server.pods.objects;
    names::maps_have_a_form(pods);
    let pairs = storage::in_name_order(pods);
    assert(names::in_key_order(pairs) && names::as_map(pairs) == pods);
    names::as_map_holds_pairs(pairs);
    let all = storage::values_in_name_order(pods);
    assert(all =~= values(pairs));
    all_pass(all, |p: PodView| watch::on_node(p, None));
    assert(listed(server) =~= all);
    owned_values(pairs, rs_name);
    assert forall|i: int| 0 <= i < all.len() implies {
        let name = (#[trigger] all[i]).metadata.name;
        pods.contains_key(name) && pods[name] == all[i] && name == pairs[i].0
    } by {
        assert(names::has_key(pairs, pairs[i].0));
        assert(pods.contains_key(pairs[i].0));
    }
    assert forall|i: int, j: int| 0 <= i < j < all.len() implies (
    #[trigger] all[i]).metadata.name != (#[trigger] all[j]).metadata.name by {
        assert(text::text_before(pairs[i].0, pairs[j].0));
        text::text_before_is_total(pairs[i].0, pairs[j].0);
    }
    assert forall|n: Seq<char>| #[trigger] pods.contains_key(n) implies all.contains(pods[n]) by {
        assert(names::has_key(pairs, n));
        let i = choose|i: int| 0 <= i < pairs.len() && (#[trigger] pairs[i]).0 == n;
        assert(all[i] == pods[n]);
    }
}

/// The Pods that are none of a ReplicaSet's business are as they were.
pub open spec fn others_are_left(
    start: PodMap,
    now: PodMap,
    rs_name: Seq<char>,
    rs: ReplicaSetView,
) -> bool {
    forall|n: Seq<char>|
        start.contains_key(n) && replicaset::claim_on(start[n], rs_name, rs) is None
            ==> #[trigger] now.contains_key(n) && now[n] == start[n]
}

/// No two of some Pods have the same name.
spec fn differ(pods: Seq<PodView>) -> bool {
    forall|i: int, j: int|
        0 <= i < j < pods.len() ==> (#[trigger] pods[i]).metadata.name != (
        #[trigger] pods[j]).metadata.name
}

/// One of some Pods has a name.
spec fn names_one(pods: Seq<PodView>, name: Seq<char>) -> bool {
    exists|i: int| 0 <= i < pods.len() && (#[trigger] pods[i]).metadata.name == name
}

/// A claim fits the Pod that is stored.
spec fn claim_fits(pods: PodMap, rs_name: Seq<char>, rs: ReplicaSetView, claim: ClaimView) -> bool {
    match claim {
        ClaimView::Owned(p) => {
            &&& pods.contains_key(p.metadata.name)
            &&& pods[p.metadata.name] == p
            &&& replicaset::owned(p, rs_name)
        },
        ClaimView::Adopt(p) => {
            &&& pods.contains_key(p.metadata.name)
            &&& p == replicaset::adopted(pods[p.metadata.name], rs)
            &&& replicaset::adoptable(pods[p.metadata.name], rs)
        },
    }
}

/// While claims are settled: those that count and those that are left are
/// different Pods, and no other Pod can be claimed.
spec fn settling(
    pods: PodMap,
    rs_name: Seq<char>,
    rs: ReplicaSetView,
    left: Seq<ClaimView>,
    counted: Seq<PodView>,
) -> bool {
    let all = counted + replicaset::claimed(left);
    &&& differ(all)
    &&& forall|i: int|
        0 <= i < counted.len() ==> claim_fits(
            pods,
            rs_name,
            rs,
            ClaimView::Owned(#[trigger] counted[i]),
        )
    &&& forall|i: int| 0 <= i < left.len() ==> claim_fits(pods, rs_name, rs, #[trigger] left[i])
    &&& forall|n: Seq<char>| #[trigger]
        pods.contains_key(n) && replicaset::claim_on(pods[n], rs_name, rs) is Some ==> names_one(
            all,
            n,
        )
}

/// A claim is on one of some Pods.
spec fn claims_one(
    pods: Seq<PodView>,
    rs_name: Seq<char>,
    rs: ReplicaSetView,
    claim: ClaimView,
) -> bool {
    exists|i: int|
        0 <= i < pods.len() && replicaset::claim_on(#[trigger] pods[i], rs_name, rs) == Some(claim)
}

proof fn claims_are_found(pods: Seq<PodView>, rs_name: Seq<char>, rs: ReplicaSetView)
    requires
        differ(pods),
    ensures
        ({
            let found = replicaset::claims_on(pods, rs_name, rs);
            &&& differ(replicaset::claimed(found))
            &&& forall|k: int|
                0 <= k < found.len() ==> claims_one(pods, rs_name, rs, #[trigger] found[k])
            &&& forall|i: int|
                0 <= i < pods.len() && replicaset::claim_on(#[trigger] pods[i], rs_name, rs) is Some
                    ==> names_one(replicaset::claimed(found), pods[i].metadata.name)
        }),
    decreases pods.len(),
{
    let found = replicaset::claims_on(pods, rs_name, rs);
    if pods.len() > 0 {
        let front = pods.drop_last();
        let last = pods.last();
        assert(differ(front)) by {
            assert forall|i: int, j: int| 0 <= i < j < front.len() implies (
            #[trigger] front[i]).metadata.name != (#[trigger] front[j]).metadata.name by {
                assert(pods[i] == front[i] && pods[j] == front[j]);
            }
        }
        claims_are_found(front, rs_name, rs);
        let before = replicaset::claims_on(front, rs_name, rs);
        let were = replicaset::claimed(before);
        let are = replicaset::claimed(found);
        assert(pods[pods.len() - 1] == last);
        assert forall|k: int| 0 <= k < before.len() implies claims_one(
            pods,
            rs_name,
            rs,
            #[trigger] before[k],
        ) && were[k].metadata.name != last.metadata.name by {
            let i = choose|i: int|
                0 <= i < front.len() && replicaset::claim_on(#[trigger] front[i], rs_name, rs)
                    == Some(before[k]);
            assert(pods[i] == front[i]);
            assert(were[k].metadata.name == pods[i].metadata.name);
        }
        match replicaset::claim_on(last, rs_name, rs) {
            Some(c) => {
                assert(found == before.push(c));
                assert(claims_one(pods, rs_name, rs, c));
                assert(are =~= were.push(are[before.len() as int]));
                assert(are[before.len() as int].metadata.name == last.metadata.name);
                assert forall|k: int| 0 <= k < found.len() implies claims_one(
                    pods,
                    rs_name,
                    rs,
                    #[trigger] found[k],
                ) by {
                    if k < before.len() {
                        assert(found[k] == before[k]);
                    }
                }
                assert forall|i: int, j: int| 0 <= i < j < are.len() implies (
                #[trigger] are[i]).metadata.name != (#[trigger] are[j]).metadata.name by {
                    if j < before.len() {
                        assert(were[i] == are[i] && were[j] == are[j]);
                    } else {
                        assert(were[i].metadata.name == are[i].metadata.name);
                        assert(claims_one(pods, rs_name, rs, before[i]));
                    }
                }
                assert forall|i: int|
                    0 <= i < pods.len() && replicaset::claim_on(
                        #[trigger] pods[i],
                        rs_name,
                        rs,
                    ) is Some implies names_one(are, pods[i].metadata.name) by {
                    if i < front.len() {
                        assert(pods[i] == front[i]);
                        let k = choose|k: int|
                            0 <= k < were.len() && (#[trigger] were[k]).metadata.name
                                == front[i].metadata.name;
                        assert(are[k].metadata.name == pods[i].metadata.name);
                    }
                }
            },
            None => {
                assert forall|i: int|
                    0 <= i < pods.len() && replicaset::claim_on(
                        #[trigger] pods[i],
                        rs_name,
                        rs,
                    ) is Some implies names_one(are, pods[i].metadata.name) by {
                    assert(pods[i] == front[i]);
                }
            },
        }
    }
}

/// The claims on the listed Pods are the claims on the stored ones.
proof fn settling_starts(server: ReplicaView, rs_name: Seq<char>, rs: ReplicaSetView)
    requires
        well_kept(server.pods.objects),
    ensures
        settling(
            server.pods.objects,
            rs_name,
            rs,
            replicaset::claims_on(listed(server), rs_name, rs),
            Seq::empty(),
        ),
{
    let pods = server.pods.objects;
    let all = listed(server);
    let found = replicaset::claims_on(all, rs_name, rs);
    listing_is_the_store(server, rs_name);
    claims_are_found(all, rs_name, rs);
    let none = Seq::<PodView>::empty();
    assert(none + replicaset::claimed(found) =~= replicaset::claimed(found));
    assert forall|k: int| 0 <= k < found.len() implies claim_fits(
        pods,
        rs_name,
        rs,
        #[trigger] found[k],
    ) by {
        assert(claims_one(all, rs_name, rs, found[k]));
        let i = choose|i: int|
            0 <= i < all.len() && replicaset::claim_on(#[trigger] all[i], rs_name, rs) == Some(
                found[k],
            );
        assert(pods[all[i].metadata.name] == all[i]);
    }
    assert forall|n: Seq<char>| #[trigger]
        pods.contains_key(n) && replicaset::claim_on(
        pods[n],
        rs_name,
        rs,
    ) is Some implies names_one(none + replicaset::claimed(found), n) by {
        let i = choose|i: int| 0 <= i < all.len() && all[i] == pods[n];
        assert(replicaset::claim_on(all[i], rs_name, rs) is Some);
    }
}

proof fn adoption_counts(
    before: ReplicaView,
    rs_name: Seq<char>,
    rs: ReplicaSetView,
    pod: PodView,
    left: Seq<ClaimView>,
    counted: Seq<PodView>,
    after: ReplicaView,
    reply: ReplyView,
)
    requires
        rs.metadata.name == rs_name,
        well_kept(before.pods.objects),
        settling(before.pods.objects, rs_name, rs, seq![ClaimView::Adopt(pod)] + left, counted),
        answers(before, RequestView::ReplacePodSpec(pod), after, reply),
        !(reply is Failed),
    ensures
        ({
            let name = pod.metadata.name;
            &&& reply matches ReplyView::Pod(Some(updated)) && {
                &&& after.pods.objects == before.pods.objects.insert(name, updated)
                &&& settling(after.pods.objects, rs_name, rs, left, counted.push(updated))
            }
            &&& before.pods.objects.contains_key(name)
            &&& replicaset::claim_on(before.pods.objects[name], rs_name, rs) is Some
        }),
        well_kept(after.pods.objects),
        after.replicasets == before.replicasets,
{
    let name = pod.metadata.name;
    let were = before.pods.objects;
    let are = after.pods.objects;
    let updated = reply->Pod_0->0;
    let claims = seq![ClaimView::Adopt(pod)] + left;
    let all = counted + replicaset::claimed(claims);
    let next = counted.push(updated) + replicaset::claimed(left);
    assert(claims[0] == ClaimView::Adopt(pod));
    assert(claim_fits(were, rs_name, rs, claims[0]));
    assert(are == were.insert(name, updated));
    assert(updated.metadata.owner_references == pod.metadata.owner_references);
    let k = were[name].metadata.owner_references.len() as int;
    assert(updated.metadata.owner_references[k] == replicaset::owner_of(rs));
    assert(replicaset::controls(updated.metadata.owner_references[k]));
    assert(replicaset::owned(updated, rs_name));
    assert(next.len() == all.len());
    assert forall|i: int| 0 <= i < all.len() implies (#[trigger] next[i]).metadata.name
        == all[i].metadata.name by {
        if i > counted.len() {
            assert(claims[i - counted.len()] == left[i - counted.len() - 1]);
        }
    }
    assert(all[counted.len() as int].metadata.name == name);
    assert forall|i: int, j: int| 0 <= i < j < next.len() implies (
    #[trigger] next[i]).metadata.name != (#[trigger] next[j]).metadata.name by {
        assert(all[i].metadata.name != all[j].metadata.name);
    }
    assert forall|i: int| 0 <= i < counted.push(updated).len() implies claim_fits(
        are,
        rs_name,
        rs,
        ClaimView::Owned(#[trigger] counted.push(updated)[i]),
    ) by {
        if i < counted.len() {
            assert(all[i] == counted[i]);
            assert(all[i].metadata.name != all[counted.len() as int].metadata.name);
            assert(claim_fits(were, rs_name, rs, ClaimView::Owned(counted[i])));
        }
    }
    assert forall|i: int| 0 <= i < left.len() implies claim_fits(
        are,
        rs_name,
        rs,
        #[trigger] left[i],
    ) by {
        assert(claims[i + 1] == left[i]);
        assert(claim_fits(were, rs_name, rs, claims[i + 1]));
        let c = counted.len() as int;
        assert(all[c + 1 + i] == replicaset::claimed(claims)[i + 1]);
        assert(all[c].metadata.name != all[c + 1 + i].metadata.name);
    }
    assert forall|n: Seq<char>| #[trigger]
        are.contains_key(n) && replicaset::claim_on(are[n], rs_name, rs) is Some implies names_one(
        next,
        n,
    ) by {
        if n == name {
            assert(next[counted.len() as int].metadata.name == n);
        } else {
            assert(were.contains_key(n));
            let i = choose|i: int| 0 <= i < all.len() && (#[trigger] all[i]).metadata.name == n;
            assert(next[i].metadata.name == n);
        }
    }
}

/// While writes are left that lead to the number asked for: nothing can be
/// adopted, and the writes make up for what is missing or too many.
spec fn resizing(
    pods: PodMap,
    rs_name: Seq<char>,
    rs: ReplicaSetView,
    writes: Seq<ScalingView>,
) -> bool {
    &&& forall|n: Seq<char>| #[trigger]
        pods.contains_key(n) ==> !replicaset::adoptable(pods[n], rs)
    &&& missing(pods, rs_name, rs, writes) || surplus(pods, rs_name, rs, writes)
}

spec fn missing(
    pods: PodMap,
    rs_name: Seq<char>,
    rs: ReplicaSetView,
    writes: Seq<ScalingView>,
) -> bool {
    &&& mine(pods, rs_name).len() + writes.len() == rs.spec.replicas
    &&& forall|k: int|
        0 <= k < writes.len() ==> replicaset::creates_one(rs, #[trigger] writes[k])
}

spec fn surplus(
    pods: PodMap,
    rs_name: Seq<char>,
    rs: ReplicaSetView,
    writes: Seq<ScalingView>,
) -> bool {
    &&& mine(pods, rs_name).len() == rs.spec.replicas + writes.len()
    &&& forall|k: int|
        0 <= k < writes.len() ==> (#[trigger] writes[k]) is Delete && mine(
            pods,
            rs_name,
        ).contains(writes[k]->name)
    &&& forall|i: int, j: int|
        0 <= i < j < writes.len() ==> (#[trigger] writes[i])->name != (#[trigger] writes[j])->name
}

/// With every claim settled, the Pods that count are all that are controlled.
proof fn counted_are_mine(
    pods: PodMap,
    rs_name: Seq<char>,
    rs: ReplicaSetView,
    counted: Seq<PodView>,
)
    requires
        well_kept(pods),
        settling(pods, rs_name, rs, Seq::empty(), counted),
    ensures
        mine(pods, rs_name).len() == counted.len(),
        differ(counted),
        forall|n: Seq<char>| #[trigger]
            pods.contains_key(n) ==> !replicaset::adoptable(pods[n], rs),
{
    let all = counted + replicaset::claimed(Seq::empty());
    assert(all =~= counted);
    let called = Seq::new(counted.len(), |i: int| counted[i].metadata.name);
    assert(called.no_duplicates()) by {
        assert forall|i: int, j: int|
            0 <= i < called.len() && 0 <= j < called.len() && i != j implies called[i]
            != called[j] by {
            if i < j {
                assert(counted[i].metadata.name != counted[j].metadata.name);
            } else {
                assert(counted[j].metadata.name != counted[i].metadata.name);
            }
        }
    }
    called.unique_seq_to_set();
    assert forall|n: Seq<char>| #[trigger]
        pods.contains_key(n) && replicaset::claim_on(pods[n], rs_name, rs) is Some implies mine(
        pods,
        rs_name,
    ).contains(n) && called.contains(n) by {
        let i = choose|i: int| 0 <= i < all.len() && (#[trigger] all[i]).metadata.name == n;
        assert(claim_fits(pods, rs_name, rs, ClaimView::Owned(counted[i])));
        assert(called[i] == n);
    }
    assert forall|n: Seq<char>| mine(pods, rs_name).contains(n) implies called.contains(n) by {
        assert(pods.contains_key(n) && replicaset::claim_on(pods[n], rs_name, rs) is Some);
    }
    assert forall|n: Seq<char>| called.contains(n) implies mine(pods, rs_name).contains(n) by {
        let i = choose|i: int| 0 <= i < called.len() && called[i] == n;
        assert(claim_fits(pods, rs_name, rs, ClaimView::Owned(counted[i])));
    }
    assert(called.to_set() =~= mine(pods, rs_name));
    assert forall|n: Seq<char>| #[trigger] pods.contains_key(n) implies !replicaset::adoptable(
        pods[n],
        rs,
    ) by {
        if replicaset::adoptable(pods[n], rs) {
            assert(mine(pods, rs_name).contains(n));
            let o = pods[n].metadata.owner_references;
            let i = choose|i: int|
                0 <= i < o.len() && replicaset::controls(#[trigger] o[i]) && o[i].name == rs_name;
            assert(o[i].controller);
        }
    }
}

proof fn deletions_in_order(pods: Seq<PodView>)
    requires
        forall|i: int|
            0 <= i < pods.len() ==> (#[trigger] pods[i]).metadata.resource_version is Some,
    ensures
        replicaset::deletions(pods).len() == pods.len(),
        forall|i: int|
            0 <= i < pods.len() ==> (#[trigger] replicaset::deletions(pods)[i]) is Delete
                && replicaset::deletions(pods)[i]->name == pods[i].metadata.name,
    decreases pods.len(),
{
    if pods.len() > 0 {
        let front = pods.drop_last();
        assert forall|i: int| 0 <= i < front.len() implies (
        #[trigger] front[i]).metadata.resource_version is Some by {
            assert(front[i] == pods[i]);
        }
        deletions_in_order(front);
        assert(pods[pods.len() - 1].metadata.resource_version is Some);
    }
}

/// A plan for the Pods that count makes up for what is missing or too many.
proof fn plan_leads_there(
    pods: PodMap,
    rs_name: Seq<char>,
    rs: ReplicaSetView,
    counted: Seq<PodView>,
    plan: Seq<ScalingView>,
)
    requires
        well_kept(pods),
        settling(pods, rs_name, rs, Seq::empty(), counted),
        replicaset::is_scaling(rs, counted, plan),
    ensures
        resizing(pods, rs_name, rs, plan),
{
    counted_are_mine(pods, rs_name, rs, counted);
    if counted.len() < rs.spec.replicas {
        assert(missing(pods, rs_name, rs, plan));
    } else {
        let sorted = order::sorted::<Pod>(counted);
        let gone = sorted.take(counted.len() - rs.spec.replicas);
        order::sorting_orders::<Pod>(counted);
        assert(counted.no_duplicates()) by {
            assert forall|i: int, j: int|
                0 <= i < counted.len() && 0 <= j < counted.len() && i != j implies counted[i]
                != counted[j] by {
                if i < j {
                    assert(counted[i].metadata.name != counted[j].metadata.name);
                } else {
                    assert(counted[j].metadata.name != counted[i].metadata.name);
                }
            }
        }
        counted.lemma_multiset_has_no_duplicates();
        sorted.lemma_multiset_has_no_duplicates_conv();
        assert forall|i: int| 0 <= i < gone.len() implies counted.contains(#[trigger] gone[i])
            && mine(pods, rs_name).contains(gone[i].metadata.name)
            && gone[i].metadata.resource_version is Some by {
            assert(gone[i] == sorted[i]);
            vstd::seq_lib::to_multiset_contains(sorted, sorted[i]);
            vstd::seq_lib::to_multiset_contains(counted, sorted[i]);
            assert(sorted.contains(sorted[i]));
            let j = choose|j: int| 0 <= j < counted.len() && counted[j] == gone[i];
            assert(claim_fits(pods, rs_name, rs, ClaimView::Owned(counted[j])));
            assert(pods.contains_key(gone[i].metadata.name));
        }
        deletions_in_order(gone);
        assert forall|i: int, j: int| 0 <= i < j < plan.len() implies (
        #[trigger] plan[i])->name != (#[trigger] plan[j])->name by {
            assert(gone[i] == sorted[i] && gone[j] == sorted[j]);
            assert(counted.contains(gone[i]) && counted.contains(gone[j]));
            let a = choose|a: int| 0 <= a < counted.len() && counted[a] == gone[i];
            let b = choose|b: int| 0 <= b < counted.len() && counted[b] == gone[j];
            assert(a != b);
            if a < b {
                assert(counted[a].metadata.name != counted[b].metadata.name);
            } else {
                assert(counted[b].metadata.name != counted[a].metadata.name);
            }
        }
        assert forall|k: int| 0 <= k < plan.len() implies (#[trigger] plan[k]) is Delete && mine(
            pods,
            rs_name,
        ).contains(plan[k]->name) by {
            assert(mine(pods, rs_name).contains(gone[k].metadata.name));
        }
        assert(surplus(pods, rs_name, rs, plan));
    }
}

proof fn write_counts(
    before: ReplicaView,
    rs_name: Seq<char>,
    rs: ReplicaSetView,
    write: ScalingView,
    left: Seq<ScalingView>,
    after: ReplicaView,
    reply: ReplyView,
)
    requires
        rs.metadata.name == rs_name,
        well_kept(before.pods.objects),
        resizing(before.pods.objects, rs_name, rs, seq![write] + left),
        answers(before, replicaset::scaling_request(write), after, reply),
        !(reply is Failed),
    ensures
        well_kept(after.pods.objects),
        resizing(after.pods.objects, rs_name, rs, left),
        after.replicasets == before.replicasets,
        others_are_left(before.pods.objects, after.pods.objects, rs_name, rs),
{
    let were = before.pods.objects;
    let are = after.pods.objects;
    let writes = seq![write] + left;
    assert(writes[0] == write);
    assert forall|k: int| 0 <= k < left.len() implies #[trigger] left[k] == writes[k + 1] by {}
    match write {
        ScalingView::Create(pod) => {
            assert(missing(were, rs_name, rs, writes));
            assert(replicaset::creates_one(rs, writes[0]));
            let (uid, created) = choose|uid: Seq<char>, created: Seq<char>|
                #[trigger] creation_answered(before, pod, uid, created, after, reply);
            let made = reply->Pod_0->0;
            let name = pod.metadata.name;
            assert(are == were.insert(name, made));
            assert(!were.contains_key(name));
            assert(made.metadata.owner_references == seq![replicaset::owner_of(rs)]);
            assert(replicaset::controls(made.metadata.owner_references[0]));
            assert(replicaset::owned(made, rs_name));
            assert(made.metadata.owner_references[0].controller);
            assert(replicaset::has_controller(made));
            assert(mine(are, rs_name) =~= mine(were, rs_name).insert(name));
            assert forall|k: int| 0 <= k < left.len() implies replicaset::creates_one(
                rs,
                #[trigger] left[k],
            ) by {
                assert(replicaset::creates_one(rs, writes[k + 1]));
            }
            assert(missing(are, rs_name, rs, left));
        },
        ScalingView::Delete { name, rv } => {
            if missing(were, rs_name, rs, writes) {
                assert(replicaset::creates_one(rs, writes[0]));
                assert(false);
            }
            assert(mine(were, rs_name).contains(writes[0]->name));
            assert(are == were.remove(name));
            assert(mine(are, rs_name) =~= mine(were, rs_name).remove(name));
            assert forall|k: int| 0 <= k < left.len() implies (#[trigger] left[k]) is Delete
                && mine(are, rs_name).contains(left[k]->name) by {
                assert(writes[k + 1] is Delete);
                assert(writes[0]->name != writes[k + 1]->name);
            }
            assert forall|i: int, j: int| 0 <= i < j < left.len() implies (
            #[trigger] left[i])->name != (#[trigger] left[j])->name by {
                assert(writes[i + 1]->name != writes[j + 1]->name);
            }
            assert(surplus(are, rs_name, rs, left));
        },
    }
}

/// A ReplicaSet has as many Pods as it asks for, and could adopt none.
pub open spec fn has_its_pods(pods: PodMap, rs_name: Seq<char>, rs: ReplicaSetView) -> bool {
    &&& mine(pods, rs_name).len() == rs.spec.replicas
    &&& forall|n: Seq<char>| #[trigger]
        pods.contains_key(n) ==> !replicaset::adoptable(pods[n], rs)
}

/// A server that keeps a ReplicaSet as it keeps everything: under its name, in a
/// version, with Pods that are kept so too.
pub open spec fn keeps(server: ReplicaView, rs_name: Seq<char>) -> bool {
    &&& well_kept(server.pods.objects)
    &&& server.replicasets.objects.contains_key(rs_name)
    &&& server.replicasets.objects[rs_name].metadata.name == rs_name
    &&& server.replicasets.objects[rs_name].metadata.resource_version is Some
}

/// Nothing is left to do for a ReplicaSet: it has the Pods it asks for, and its
/// status says so.
pub open spec fn at_rest(server: ReplicaView, rs_name: Seq<char>) -> bool {
    let rs = server.replicasets.objects[rs_name];
    &&& keeps(server, rs_name)
    &&& has_its_pods(server.pods.objects, rs_name, rs)
    &&& rs.status == Some(replicaset::observed_status(rs_name, rs, listed(server)))
}

/// The write that a request makes.
spec fn write_of(request: RequestView) -> ScalingView {
    match request {
        RequestView::DeletePod { name, rv } => ScalingView::Delete { name, rv },
        _ => ScalingView::Create(request->CreatePod_0),
    }
}

/// What holds at each turn of a round in which nothing has failed.
spec fn on_course(
    rs_name: Seq<char>,
    start: ReplicaView,
    now: ReplicaView,
    p: ProgressView<StageView>,
) -> bool {
    let rs = start.replicasets.objects[rs_name];
    let pods = now.pods.objects;
    &&& well_kept(pods)
    &&& others_are_left(start.pods.objects, pods, rs_name, rs)
    &&& !(p is Finished) ==> now.replicasets == start.replicasets
    &&& match p {
        ProgressView::Ask(q, StageView::Reading) => {
            q == RequestView::GetReplicaSet(rs_name) && now == start
        },
        ProgressView::Ask(q, StageView::Claiming { rs: r }) => {
            q == RequestView::ListPods && r == rs && now == start
        },
        ProgressView::Ask(q, StageView::Adopting { rs: r, left, owned }) => {
            &&& r == rs
            &&& q matches RequestView::ReplacePodSpec(pod) && settling(
                pods,
                rs_name,
                rs,
                seq![ClaimView::Adopt(pod)] + left,
                owned,
            )
        },
        ProgressView::Ask(q, StageView::Resizing { rs: r, left }) => {
            &&& r == rs
            &&& q == replicaset::scaling_request(write_of(q))
            &&& resizing(pods, rs_name, rs, seq![write_of(q)] + left)
        },
        ProgressView::Ask(q, StageView::Counting { rs: r }) => {
            q == RequestView::ListPods && r == rs && has_its_pods(pods, rs_name, rs)
        },
        ProgressView::Ask(q, StageView::Reporting) => {
            &&& has_its_pods(pods, rs_name, rs)
            &&& q matches RequestView::ReplaceReplicaSetStatus { name, status, rv }
            && name == rs_name && status == replicaset::observed_status(rs_name, rs, listed(now))
        },
        ProgressView::Finished => {
            &&& at_rest(now, rs_name)
            &&& now.replicasets.objects[rs_name].spec == rs.spec
        },
        _ => false,
    }
}

proof fn resized_on_course(
    rs_name: Seq<char>,
    start: ReplicaView,
    now: ReplicaView,
    left: Seq<ScalingView>,
)
    requires
        well_kept(now.pods.objects),
        others_are_left(
            start.pods.objects,
            now.pods.objects,
            rs_name,
            start.replicasets.objects[rs_name],
        ),
        now.replicasets == start.replicasets,
        resizing(now.pods.objects, rs_name, start.replicasets.objects[rs_name], left),
    ensures
        on_course(
            rs_name,
            start,
            now,
            replicaset::resized(start.replicasets.objects[rs_name], left),
        ),
{
    if left.len() > 0 {
        assert(seq![left[0]] + left.remove(0) =~= left);
    }
}

proof fn settled_on_course(
    rs_name: Seq<char>,
    start: ReplicaView,
    now: ReplicaView,
    left: Seq<ClaimView>,
    counted: Seq<PodView>,
    p: ProgressView<StageView>,
)
    requires
        well_kept(now.pods.objects),
        others_are_left(
            start.pods.objects,
            now.pods.objects,
            rs_name,
            start.replicasets.objects[rs_name],
        ),
        now.replicasets == start.replicasets,
        settling(now.pods.objects, rs_name, start.replicasets.objects[rs_name], left, counted),
        replicaset::settled(start.replicasets.objects[rs_name], left, counted, p),
    ensures
        on_course(rs_name, start, now, p),
    decreases left.len(),
{
    let rs = start.replicasets.objects[rs_name];
    let pods = now.pods.objects;
    if left.len() == 0 {
        assert(left =~= Seq::empty());
        let plan = choose|plan: Seq<ScalingView>|
            #[trigger] replicaset::is_scaling(rs, counted, plan) && p == replicaset::resized(
                rs,
                plan,
            );
        plan_leads_there(pods, rs_name, rs, counted, plan);
        resized_on_course(rs_name, start, now, plan);
    } else {
        let rest = left.remove(0);
        match left[0] {
            ClaimView::Owned(pod) => {
                let more = counted.push(pod);
                assert(more + replicaset::claimed(rest) =~= counted + replicaset::claimed(left));
                assert(claim_fits(pods, rs_name, rs, left[0]));
                assert forall|i: int| 0 <= i < rest.len() implies claim_fits(
                    pods,
                    rs_name,
                    rs,
                    #[trigger] rest[i],
                ) by {
                    assert(rest[i] == left[i + 1]);
                }
                assert(settling(pods, rs_name, rs, rest, more));
                settled_on_course(rs_name, start, now, rest, more, p);
            },
            ClaimView::Adopt(pod) => {
                assert(seq![left[0]] + rest =~= left);
            },
        }
    }
}

proof fn report_brings_rest(
    rs_name: Seq<char>,
    start: ReplicaView,
    before: ReplicaView,
    request: RequestView,
    after: ReplicaView,
    reply: ReplyView,
)
    requires
        keeps(start, rs_name),
        on_course(rs_name, start, before, ProgressView::Ask(request, StageView::Reporting)),
        answers(before, request, after, reply),
        !(reply is Failed),
    ensures
        on_course(rs_name, start, after, ProgressView::Finished),
{
    let rs = start.replicasets.objects[rs_name];
    let now = after.replicasets.objects[rs_name];
    assert(after.pods == before.pods);
    assert(listed(after) == listed(before));
    assert(after.replicasets.objects.contains_key(rs_name));
    assert(now.spec == rs.spec);
    assert(now.metadata.generation == rs.metadata.generation);
    assert(now.metadata.name == rs_name);
    assert(replicaset::observed_status(rs_name, now, listed(after))
        == replicaset::observed_status(rs_name, rs, listed(before)));
    assert(has_its_pods(after.pods.objects, rs_name, now)) by {
        assert forall|n: Seq<char>| #[trigger]
            after.pods.objects.contains_key(n) implies !replicaset::adoptable(
            after.pods.objects[n],
            now,
        ) by {
            assert(!replicaset::adoptable(before.pods.objects[n], rs));
        }
    }
}

proof fn turn_stays_on_course(
    rs_name: Seq<char>,
    start: ReplicaView,
    before: ReplicaView,
    request: RequestView,
    stage: StageView,
    after: ReplicaView,
    reply: ReplyView,
    p: ProgressView<StageView>,
)
    requires
        keeps(start, rs_name),
        on_course(rs_name, start, before, ProgressView::Ask(request, stage)),
        answers(before, request, after, reply),
        !(reply is Failed),
        replicaset::next_stage(rs_name, stage, reply, p),
    ensures
        on_course(rs_name, start, after, p),
{
    let rs = start.replicasets.objects[rs_name];
    match stage {
        StageView::Reading => {
            assert(reply == ReplyView::ReplicaSet(Some(rs)));
        },
        StageView::Claiming { rs: r } => {
            settling_starts(start, rs_name, rs);
            settled_on_course(
                rs_name,
                start,
                after,
                replicaset::claims_on(listed(start), rs_name, rs),
                Seq::empty(),
                p,
            );
        },
        StageView::Adopting { rs: r, left, owned } => {
            let pod = request->ReplacePodSpec_0;
            adoption_counts(before, rs_name, rs, pod, left, owned, after, reply);
            assert forall|n: Seq<char>|
                start.pods.objects.contains_key(n) && replicaset::claim_on(
                    start.pods.objects[n],
                    rs_name,
                    rs,
                ) is None implies #[trigger] after.pods.objects.contains_key(n)
                && after.pods.objects[n] == start.pods.objects[n] by {
                assert(before.pods.objects.contains_key(n));
            }
            settled_on_course(rs_name, start, after, left, owned.push(reply->Pod_0->0), p);
        },
        StageView::Resizing { rs: r, left } => {
            write_counts(before, rs_name, rs, write_of(request), left, after, reply);
            assert forall|n: Seq<char>|
                start.pods.objects.contains_key(n) && replicaset::claim_on(
                    start.pods.objects[n],
                    rs_name,
                    rs,
                ) is None implies #[trigger] after.pods.objects.contains_key(n)
                && after.pods.objects[n] == start.pods.objects[n] by {
                assert(before.pods.objects.contains_key(n));
            }
            resized_on_course(rs_name, start, after, left);
        },
        StageView::Counting { rs: r } => {
            assert(after == before);
        },
        StageView::Reporting => {
            report_brings_rest(rs_name, start, before, request, after, reply);
        },
        _ => {},
    }
}

proof fn rounds_stay_on_course(rs_name: Seq<char>, round: Round, at: int)
    requires
        is_round(rs_name, round),
        all_succeed(round),
        keeps(round.servers[0], rs_name),
        0 <= at < round.progress.len(),
    ensures
        on_course(rs_name, round.servers[0], round.servers[at], round.progress[at]),
    decreases at,
{
    if at > 0 {
        rounds_stay_on_course(rs_name, round, at - 1);
        assert(turn(rs_name, round, at - 1));
        assert(!(round.replies[at - 1] is Failed));
        turn_stays_on_course(
            rs_name,
            round.servers[0],
            round.servers[at - 1],
            round.progress[at - 1]->Ask_0,
            round.progress[at - 1]->Ask_1,
            round.servers[at],
            round.replies[at - 1],
            round.progress[at],
        );
    }
}

/// Law: a round in which no request fails ends with exactly as many Pods of the
/// ReplicaSet as it asks for and nothing left to do for it. Pods that it neither
/// controls nor can adopt are as they were.
pub proof fn rounds_reach_the_number(rs_name: Seq<char>, round: Round)
    requires
        is_round(rs_name, round),
        all_succeed(round),
        keeps(round.servers[0], rs_name),
    ensures
        ({
            let rs = round.servers[0].replicasets.objects[rs_name];
            let end = round.servers.last();
            &&& round.progress.last() is Finished
            &&& listed(end).filter(|p: PodView| replicaset::owned(p, rs_name)).len()
                == rs.spec.replicas
            &&& end.replicasets.objects[rs_name].spec == rs.spec
            &&& at_rest(end, rs_name)
            &&& others_are_left(round.servers[0].pods.objects, end.pods.objects, rs_name, rs)
        }),
{
    let n = round.replies.len() as int;
    rounds_stay_on_course(rs_name, round, n);
    listing_is_the_store(round.servers[n], rs_name);
}

/// How many Pods some requests create.
pub open spec fn creations(progress: Seq<ProgressView<StageView>>) -> nat
    decreases progress.len(),
{
    if progress.len() == 0 {
        0
    } else {
        creations(progress.drop_last()) + match progress.last() {
            ProgressView::Ask(RequestView::CreatePod(_), _) => 1nat,
            _ => 0nat,
        }
    }
}

/// How many Pods some requests delete.
pub open spec fn removals(progress: Seq<ProgressView<StageView>>) -> nat
    decreases progress.len(),
{
    if progress.len() == 0 {
        0
    } else {
        removals(progress.drop_last()) + match progress.last() {
            ProgressView::Ask(RequestView::DeletePod { .. }, _) => 1nat,
            _ => 0nat,
        }
    }
}

/// How many Pods are missing where there are `have` and `want` are asked for.
pub open spec fn shortage(want: int, have: int) -> int {
    if have < want {
        want - have
    } else {
        0
    }
}

/// All writes create, or all delete.
spec fn alike(writes: Seq<ScalingView>, create: bool) -> bool {
    forall|k: int| 0 <= k < writes.len() ==> ((#[trigger] writes[k]) is Create) == create
}

/// What was created and deleted so far in a round in which nothing has failed,
/// and what is left, given how many Pods were claimed.
spec fn tally(
    rs: ReplicaSetView,
    claimed: int,
    p: ProgressView<StageView>,
    made: int,
    gone: int,
) -> bool {
    let want = rs.spec.replicas as int;
    match p {
        ProgressView::Ask(_, StageView::Reading) => made == 0 && gone == 0,
        ProgressView::Ask(_, StageView::Claiming { .. }) => made == 0 && gone == 0,
        ProgressView::Ask(_, StageView::Adopting { left, owned, .. }) => {
            made == 0 && gone == 0 && owned.len() + 1 + left.len() == claimed
        },
        ProgressView::Ask(q, StageView::Resizing { left, .. }) => {
            let more = 1 + left.len();
            &&& alike(seq![write_of(q)] + left, claimed < want)
            &&& made + (if claimed < want {
                more as int
            } else {
                0
            }) == shortage(want, claimed)
            &&& gone + (if claimed < want {
                0
            } else {
                more as int
            }) == shortage(claimed, want)
        },
        _ => made == shortage(want, claimed) && gone == shortage(claimed, want),
    }
}

proof fn settled_tally(
    rs_name: Seq<char>,
    pods: PodMap,
    rs: ReplicaSetView,
    left: Seq<ClaimView>,
    counted: Seq<PodView>,
    p: ProgressView<StageView>,
)
    requires
        well_kept(pods),
        settling(pods, rs_name, rs, left, counted),
        replicaset::settled(rs, left, counted, p),
    ensures
        tally(rs, (counted.len() + left.len()) as int, p, 0, 0),
    decreases left.len(),
{
    if left.len() == 0 {
        assert(left =~= Seq::empty());
        let plan = choose|plan: Seq<ScalingView>|
            #[trigger] replicaset::is_scaling(rs, counted, plan) && p == replicaset::resized(
                rs,
                plan,
            );
        plan_leads_there(pods, rs_name, rs, counted, plan);
        counted_are_mine(pods, rs_name, rs, counted);
        assert(alike(plan, counted.len() < rs.spec.replicas)) by {
            assert forall|k: int| 0 <= k < plan.len() implies ((#[trigger] plan[k]) is Create) == (
            counted.len() < rs.spec.replicas) by {
                if counted.len() < rs.spec.replicas {
                    assert(replicaset::creates_one(rs, plan[k]));
                } else {
                    assert(surplus(pods, rs_name, rs, plan));
                }
            }
        }
        if plan.len() > 0 {
            assert(seq![plan[0]] + plan.remove(0) =~= plan);
        }
    } else if let ClaimView::Owned(pod) = left[0] {
        let rest = left.remove(0);
        let more = counted.push(pod);
        assert(more + replicaset::claimed(rest) =~= counted + replicaset::claimed(left));
        assert(claim_fits(pods, rs_name, rs, left[0]));
        assert forall|i: int| 0 <= i < rest.len() implies claim_fits(
            pods,
            rs_name,
            rs,
            #[trigger] rest[i],
        ) by {
            assert(rest[i] == left[i + 1]);
        }
        assert(settling(pods, rs_name, rs, rest, more));
        settled_tally(rs_name, pods, rs, rest, more, p);
    }
}

proof fn rounds_keep_tally(rs_name: Seq<char>, round: Round, at: int)
    requires
        is_round(rs_name, round),
        all_succeed(round),
        keeps(round.servers[0], rs_name),
        0 <= at < round.progress.len(),
    ensures
        ({
            let rs = round.servers[0].replicasets.objects[rs_name];
            let found = replicaset::claims_on(listed(round.servers[0]), rs_name, rs);
            tally(
                rs,
                found.len() as int,
                round.progress[at],
                creations(round.progress.take(at)) as int,
                removals(round.progress.take(at)) as int,
            )
        }),
    decreases at,
{
    let start = round.servers[0];
    let rs = start.replicasets.objects[rs_name];
    let found = replicaset::claims_on(listed(start), rs_name, rs);
    let p = round.progress[at];
    if at > 0 {
        let before = round.servers[at - 1];
        let after = round.servers[at];
        let reply = round.replies[at - 1];
        rounds_keep_tally(rs_name, round, at - 1);
        rounds_stay_on_course(rs_name, round, at - 1);
        assert(turn(rs_name, round, at - 1));
        assert(!(reply is Failed));
        assert(round.progress.take(at).drop_last() =~= round.progress.take(at - 1));
        let (request, stage) = (round.progress[at - 1]->Ask_0, round.progress[at - 1]->Ask_1);
        match stage {
            StageView::Claiming { rs: r } => {
                settling_starts(start, rs_name, rs);
                settled_tally(rs_name, start.pods.objects, rs, found, Seq::empty(), p);
            },
            StageView::Adopting { rs: r, left, owned } => {
                let pod = request->ReplacePodSpec_0;
                adoption_counts(before, rs_name, rs, pod, left, owned, after, reply);
                settled_tally(
                    rs_name,
                    after.pods.objects,
                    rs,
                    left,
                    owned.push(reply->Pod_0->0),
                    p,
                );
            },
            StageView::Resizing { rs: r, left } => {
                let writes = seq![write_of(request)] + left;
                assert(writes[0] == write_of(request));
                if left.len() > 0 {
                    let rest = seq![left[0]] + left.remove(0);
                    assert(rest =~= left);
                    assert forall|k: int| 0 <= k < left.len() implies ((
                    #[trigger] left[k]) is Create) == (found.len() < rs.spec.replicas) by {
                        assert(writes[k + 1] == left[k]);
                    }
                    assert(write_of(replicaset::scaling_request(left[0])) == left[0]);
                }
            },
            _ => {
                assert(start == round.servers[0]);
            },
        }
    }
}

/// Law: a round in which no request fails creates as many Pods as are missing
/// beside those it claims, and deletes as many as are too many.
pub proof fn rounds_write_what_is_needed(rs_name: Seq<char>, round: Round)
    requires
        is_round(rs_name, round),
        all_succeed(round),
        keeps(round.servers[0], rs_name),
    ensures
        ({
            let rs = round.servers[0].replicasets.objects[rs_name];
            let have = replicaset::claims_on(listed(round.servers[0]), rs_name, rs).len() as int;
            &&& creations(round.progress) == shortage(rs.spec.replicas as int, have)
            &&& removals(round.progress) == shortage(have, rs.spec.replicas as int)
        }),
{
    let n = round.replies.len() as int;
    rounds_keep_tally(rs_name, round, n);
    rounds_stay_on_course(rs_name, round, n);
    assert(round.progress.drop_last() =~= round.progress.take(n));
}

proof fn owned_claims(pods: Seq<PodView>, rs_name: Seq<char>, rs: ReplicaSetView)
    requires
        forall|i: int| 0 <= i < pods.len() ==> !replicaset::adoptable(#[trigger] pods[i], rs),
    ensures
        ({
            let found = replicaset::claims_on(pods, rs_name, rs);
            &&& forall|k: int| 0 <= k < found.len() ==> (#[trigger] found[k]) is Owned
            &&& found.len() == pods.filter(|p: PodView| replicaset::owned(p, rs_name)).len()
        }),
    decreases pods.len(),
{
    reveal(Seq::filter);
    if pods.len() > 0 {
        let front = pods.drop_last();
        assert forall|i: int| 0 <= i < front.len() implies !replicaset::adoptable(
            #[trigger] front[i],
            rs,
        ) by {
            assert(front[i] == pods[i]);
        }
        owned_claims(front, rs_name, rs);
        assert(!replicaset::adoptable(pods[pods.len() - 1], rs));
    }
}

proof fn owned_claims_scale(
    rs: ReplicaSetView,
    left: Seq<ClaimView>,
    counted: Seq<PodView>,
    p: ProgressView<StageView>,
)
    requires
        replicaset::settled(rs, left, counted, p),
        forall|k: int| 0 <= k < left.len() ==> (#[trigger] left[k]) is Owned,
        counted.len() + left.len() == rs.spec.replicas,
    ensures
        p == ProgressView::Ask(RequestView::ListPods, StageView::Counting { rs }),
    decreases left.len(),
{
    if left.len() == 0 {
        let plan = choose|plan: Seq<ScalingView>|
            #[trigger] replicaset::is_scaling(rs, counted, plan) && p == replicaset::resized(
                rs,
                plan,
            );
        order::sorting_orders::<Pod>(counted);
        assert(order::sorted::<Pod>(counted).take(0) =~= Seq::<PodView>::empty());
    } else {
        let rest = left.remove(0);
        assert(left[0] is Owned);
        assert forall|k: int| 0 <= k < rest.len() implies (#[trigger] rest[k]) is Owned by {
            assert(rest[k] == left[k + 1]);
        }
        owned_claims_scale(rs, rest, counted.push(left[0]->Owned_0), p);
    }
}

/// Law: a round over a ReplicaSet for which nothing is left to do only reads.
pub proof fn rounds_at_rest_write_nothing(rs_name: Seq<char>, round: Round, at: int)
    requires
        is_round(rs_name, round),
        at_rest(round.servers[0], rs_name),
        0 <= at < round.progress.len(),
    ensures
        round.progress[at] matches ProgressView::Ask(request, _) ==> !request.is_write(),
        round.servers[at] == round.servers[0],
        round.progress.last() is Finished,
{
    let server = round.servers[0];
    let rs = server.replicasets.objects[rs_name];
    let all = listed(server);
    assert(turn(rs_name, round, 0));
    assert(round.replies[0] == ReplyView::ReplicaSet(Some(rs)));
    assert(round.progress[1] == ProgressView::Ask(
        RequestView::ListPods,
        StageView::Claiming { rs },
    ));
    assert(turn(rs_name, round, 1));
    listing_is_the_store(server, rs_name);
    assert forall|i: int| 0 <= i < all.len() implies !replicaset::adoptable(
        #[trigger] all[i],
        rs,
    ) by {
        assert(server.pods.objects.contains_key(all[i].metadata.name));
    }
    owned_claims(all, rs_name, rs);
    owned_claims_scale(
        rs,
        replicaset::claims_on(all, rs_name, rs),
        Seq::empty(),
        round.progress[2],
    );
    assert(turn(rs_name, round, 2));
    assert(round.progress[3] is Finished);
    if round.replies.len() > 3 {
        assert(turn(rs_name, round, 3));
    }
}

/// Law: after a round in which no request fails, a second one writes nothing.
pub proof fn second_rounds_write_nothing(
    rs_name: Seq<char>,
    first: Round,
    second: Round,
    at: int,
)
    requires
        is_round(rs_name, first),
        all_succeed(first),
        keeps(first.servers[0], rs_name),
        is_round(rs_name, second),
        second.servers[0] == first.servers.last(),
        0 <= at < second.progress.len(),
    ensures
        second.progress[at] matches ProgressView::Ask(request, _) ==> !request.is_write(),
        second.servers[at] == first.servers.last(),
        second.progress.last() is Finished,
{
    rounds_reach_the_number(rs_name, first);
    rounds_at_rest_write_nothing(rs_name, second, at);
}

} // verus!
