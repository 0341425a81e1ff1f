//! What a round over a ReplicaSet asks for, request by request.

use vstd::prelude::*;

use crate::controller::replicaset;
use crate::controller::replicaset::{reconcile, start, update_status, Scaling, ScalingView, Stage};
use crate::controller::request::{Progress, Reply, Request};
use crate::pod::{Pod, PodView};
use crate::replicaset::{ReplicaSet, ReplicaSetStatus};

verus! {

/// Law: when a ReplicaSet is gone, each Pod that it controls is deleted, over
/// the version in which it was listed, and no other one. A Pod that was never
/// stored cannot be.
pub proof fn orphans_are_deleted(pods: Seq<PodView>, more: PodView, rs_name: Seq<char>)
    ensures
        replicaset::cascade_of(Seq::empty(), rs_name) == Seq::<ScalingView>::empty(),
        ({
            let own = exists|i: int|
                0 <= i < more.metadata.owner_references.len() && (
                #[trigger] more.metadata.owner_references[i]).kind == "ReplicaSet"@
                    && more.metadata.owner_references[i].controller
                    && more.metadata.owner_references[i].name == rs_name;
            let before = replicaset::cascade_of(pods, rs_name);
            replicaset::cascade_of(pods.push(more), rs_name) == (
            match more.metadata.resource_version {
                Some(rv) => if own {
                    before.push(ScalingView::Delete { name: more.metadata.name, rv })
                } else {
                    before
                },
                None => before,
            })
        }),
{
    reveal(Seq::filter);
    let mine = |p: PodView| replicaset::owned(p, rs_name);
    let all = pods.push(more);
    assert(all.drop_last() =~= pods);
    assert(Seq::<PodView>::empty().filter(mine) =~= Seq::<PodView>::empty());
    if mine(more) {
        assert(pods.filter(mine).push(more).drop_last() =~= pods.filter(mine));
    }
}

/// Whether a request makes a write.
pub open spec fn makes(request: Request, write: Scaling) -> bool {
    match (write, request) {
        (Scaling::Create(pod), Request::CreatePod(asked)) => asked.deep_view() == pod.deep_view(),
        (Scaling::Delete { name, rv }, Request::DeletePod { name: asked, rv: over }) => asked@
            == name@ && over@ == rv@,
        _ => false,
    }
}

/// Whether some writes are others without the first.
pub open spec fn are_the_rest(rest: Seq<Scaling>, all: Seq<Scaling>) -> bool {
    &&& rest.len() + 1 == all.len()
    &&& forall|i: int|
        0 <= i < rest.len() ==> (#[trigger] rest[i]).deep_view() == all[i + 1].deep_view()
}

/// Law: a round reads the ReplicaSet, then the Pods. The writes that were
/// decided on are made one after another in their order, whatever becomes of
/// each. When those that follow a ReplicaSet's end are made, the round ends;
/// when those that change the number of Pods are made, the Pods are counted.
pub proof fn rounds_go_write_by_write(
    rs_name: &str,
    first: Progress<Stage>,
    stage: Stage,
    reply: Reply,
    p: Progress<Stage>,
)
    requires
        call_ensures(start, (rs_name,), first),
        call_ensures(reconcile, (rs_name, stage, reply), p),
    ensures
        match first {
            Progress::Ask(Request::GetReplicaSet(name), Stage::Reading) => name@ == rs_name@,
            _ => false,
        },
        match (stage, reply) {
            (Stage::Reading, Reply::ReplicaSet(None)) => match p {
                Progress::Ask(Request::ListPods, Stage::Orphaned) => true,
                _ => false,
            },
            (Stage::Reading, Reply::ReplicaSet(Some(rs))) => match p {
                Progress::Ask(Request::ListPods, Stage::Claiming { rs: kept }) => kept.deep_view()
                    == rs.deep_view(),
                _ => false,
            },
            (Stage::Dropping { left }, _) => if left@.len() == 0 {
                p is Finished
            } else {
                match p {
                    Progress::Ask(request, Stage::Dropping { left: rest }) => makes(
                        request,
                        left@[0],
                    ) && are_the_rest(rest@, left@),
                    _ => false,
                }
            },
            (Stage::Resizing { rs, left }, _) => if left@.len() == 0 {
                match p {
                    Progress::Ask(Request::ListPods, Stage::Counting { rs: kept }) => kept.deep_view()
                        == rs.deep_view(),
                    _ => false,
                }
            } else {
                match p {
                    Progress::Ask(request, Stage::Resizing { rs: kept, left: rest }) => makes(
                        request,
                        left@[0],
                    ) && are_the_rest(rest@, left@) && kept.deep_view() == rs.deep_view(),
                    _ => false,
                }
            },
            (Stage::Reporting, Reply::Failed(e)) => match p {
                Progress::Aborted(told) => told@ == e@,
                _ => false,
            },
            (Stage::Reporting, _) => p is Finished,
            (Stage::Adopting { .. }, _) => true,
            (_, Reply::Failed(e)) => match p {
                Progress::Aborted(told) => told@ == e@,
                _ => false,
            },
            _ => true,
        },
{
    let seen = p.deep_view();
    match (stage, p) {
        (Stage::Dropping { left }, Progress::Ask(request, Stage::Dropping { left: rest })) => {
            if left@.len() > 0 {
                let all = left.deep_view();
                assert(rest.deep_view() == all.remove(0));
                assert(request.deep_view() == replicaset::scaling_request(all[0]));
                assert(all[0] == left@[0].deep_view());
                assert forall|i: int| 0 <= i < rest@.len() implies (#[trigger] rest@[i]).deep_view()
                    == left@[i + 1].deep_view() by {
                    assert(rest.deep_view()[i] == all.remove(0)[i]);
                }
            }
        },
        (
            Stage::Resizing { rs, left },
            Progress::Ask(request, Stage::Resizing { rs: kept, left: rest }),
        ) => {
            if left@.len() > 0 {
                let all = left.deep_view();
                assert(rest.deep_view() == all.remove(0));
                assert(request.deep_view() == replicaset::scaling_request(all[0]));
                assert(all[0] == left@[0].deep_view());
                assert forall|i: int| 0 <= i < rest@.len() implies (#[trigger] rest@[i]).deep_view()
                    == left@[i + 1].deep_view() by {
                    assert(rest.deep_view()[i] == all.remove(0)[i]);
                }
            }
        },
        _ => {},
    }
}

/// Law: once the Pods are counted, a status that is as counted is left alone and
/// the round ends. Any other is written, under the ReplicaSet's name and over
/// the version in which it was read.
pub proof fn statuses_are_reported_when_they_change(
    rs_name: &str,
    rs: ReplicaSet,
    pods: Vec<Pod>,
    write: Option<(ReplicaSetStatus, String)>,
    p: Progress<Stage>,
)
    requires
        call_ensures(update_status, (rs_name, &rs, &pods), write),
        call_ensures(reconcile, (rs_name, Stage::Counting { rs }, Reply::Pods(pods)), p),
    ensures
        ({
            let counted = replicaset::observed_status(rs_name@, rs.deep_view(), pods.deep_view());
            &&& write is Some <==> rs.status != Some(counted)
                && rs.metadata.resource_version is Some
            &&& match write {
                Some((status, rv)) => status == counted && rv@
                    == rs.metadata.resource_version->0@ && match p {
                    Progress::Ask(
                        Request::ReplaceReplicaSetStatus { name, status: told, rv: over },
                        Stage::Reporting,
                    ) => name@ == rs_name@ && told == counted && over@ == rv@,
                    _ => false,
                },
                None => p is Finished,
            }
        }),
{
}

} // verus!
