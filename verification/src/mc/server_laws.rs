//! Laws of the server list.

use vstd::prelude::*;

use crate::http::Response;
use crate::mc::names;
use crate::mc::names::Listing;
use crate::mc::servers;
use crate::mc::servers::{DeploymentRow, DeploymentRowView, PodRow, PodRowView, ServerInfo};
use crate::order;
use crate::text;

verus! {

/// Whether a deployment is that of the server `name`.
pub open spec fn is_of_server(deployment: DeploymentRow, name: Seq<char>) -> bool {
    deployment.name matches Some(full) && full@ == "mc-"@ + name
}

/// Whether the first label `app` of a pod is `mc-<name>`, and the pod has a name.
pub open spec fn is_pod_of_server(pod: PodRow, name: Seq<char>) -> bool {
    pod.name is Some && exists|l: int|
        #![trigger pod.labels@[l]]
        {
            &&& 0 <= l < pod.labels@.len()
            &&& pod.labels@[l].0@ == "app"@
            &&& pod.labels@[l].1@ == "mc-"@ + name
            &&& forall|m: int| 0 <= m < l ==> (#[trigger] pod.labels@[m]).0@ != "app"@
        }
}

/// Whether a pod is running.
pub open spec fn is_running(pod: PodRow) -> bool {
    pod.phase matches Some(phase) && phase@ == "Running"@
}

/// Whether two optional texts are the same.
pub open spec fn same_text(a: Option<String>, b: Option<String>) -> bool {
    match (a, b) {
        (Some(a), Some(b)) => a@ == b@,
        (None, None) => true,
        _ => false,
    }
}

proof fn lemma_label(labels: Seq<(Seq<char>, Seq<char>)>, key: Seq<char>)
    ensures
        match servers::label(labels, key) {
            Some(value) => exists|l: int|
                #![trigger labels[l]]
                {
                    &&& 0 <= l < labels.len()
                    &&& labels[l].0 == key
                    &&& labels[l].1 == value
                    &&& forall|m: int| 0 <= m < l ==> (#[trigger] labels[m]).0 != key
                },
            None => forall|m: int| 0 <= m < labels.len() ==> (#[trigger] labels[m]).0 != key,
        },
    decreases labels.len(),
{
    if labels.len() > 0 && labels[0].0 != key {
        let rest = labels.drop_first();
        lemma_label(rest, key);
        match servers::label(rest, key) {
            Some(value) => {
                let l = choose|l: int|
                    #![trigger rest[l]]
                    {
                        &&& 0 <= l < rest.len()
                        &&& rest[l].0 == key
                        &&& rest[l].1 == value
                        &&& forall|m: int| 0 <= m < l ==> (#[trigger] rest[m]).0 != key
                    };
                assert(labels[l + 1] == rest[l]);
                assert forall|m: int| 0 <= m < l + 1 implies (#[trigger] labels[m]).0 != key by {
                    if m > 0 {
                        assert(rest[m - 1] == labels[m]);
                    }
                }
            },
            None => {
                assert forall|m: int| 0 <= m < labels.len() implies (#[trigger] labels[m]).0
                    != key by {
                    if m > 0 {
                        assert(rest[m - 1] == labels[m]);
                    }
                }
            },
        }
    } else if labels.len() > 0 {
        assert(labels[0].0 == key);
    }
}

proof fn lemma_is_pod_of_server(pod: PodRow, name: Seq<char>)
    ensures
        is_pod_of_server(pod, name) == servers::belongs(pod.deep_view(), "mc-"@ + name),
{
    let labels = pod.labels.deep_view();
    let full = "mc-"@ + name;
    lemma_label(labels, "app"@);
    assert forall|m: int| 0 <= m < labels.len() implies (#[trigger] labels[m]) == (
        pod.labels@[m].0@,
        pod.labels@[m].1@,
    ) by {}
    if is_pod_of_server(pod, name) {
        let l = choose|l: int|
            #![trigger pod.labels@[l]]
            {
                &&& 0 <= l < pod.labels@.len()
                &&& pod.labels@[l].0@ == "app"@
                &&& pod.labels@[l].1@ == full
                &&& forall|m: int| 0 <= m < l ==> (#[trigger] pod.labels@[m]).0@ != "app"@
            };
        assert(labels[l].0 == "app"@);
        let value = servers::label(labels, "app"@)->0;
        let k = choose|k: int|
            #![trigger labels[k]]
            {
                &&& 0 <= k < labels.len()
                &&& labels[k].0 == "app"@
                &&& labels[k].1 == value
                &&& forall|m: int| 0 <= m < k ==> (#[trigger] labels[m]).0 != "app"@
            };
        assert(pod.labels@[k].0@ == "app"@);
        assert(k == l);
    }
    if servers::belongs(pod.deep_view(), full) {
        let k = choose|k: int|
            #![trigger labels[k]]
            {
                &&& 0 <= k < labels.len()
                &&& labels[k].0 == "app"@
                &&& labels[k].1 == full
                &&& forall|m: int| 0 <= m < k ==> (#[trigger] labels[m]).0 != "app"@
            };
        assert(pod.labels@[k].0@ == "app"@ && pod.labels@[k].1@ == full);
        assert forall|m: int| 0 <= m < k implies (#[trigger] pod.labels@[m]).0@ != "app"@ by {
            assert(labels[m].0 != "app"@);
        }
    }
}

/// The places of the deployments whose rows `servers_of` holds.
proof fn lemma_servers_of_lists(
    deployments: Seq<DeploymentRowView>,
    pods: Seq<PodRowView>,
) -> (shown: Seq<int>)
    ensures
        servers::servers_of(deployments, pods).len() == shown.len(),
        forall|k: int|
            0 <= k < shown.len() ==> 0 <= #[trigger] shown[k] < deployments.len()
                && servers::server_of(deployments[shown[k]], pods) == Some(
                servers::servers_of(deployments, pods)[k],
            ),
        forall|a: int, b: int| 0 <= a < b < shown.len() ==> #[trigger] shown[a] < #[trigger] shown[b],
        forall|i: int|
            0 <= i < deployments.len() && servers::server_of(deployments[i], pods) is Some
                ==> #[trigger] shown.contains(i),
    decreases deployments.len(),
{
    if deployments.len() == 0 {
        Seq::empty()
    } else {
        let front = deployments.drop_last();
        let last = deployments.len() - 1;
        let before = lemma_servers_of_lists(front, pods);
        let rows = servers::servers_of(front, pods);
        let shown = match servers::server_of(deployments.last(), pods) {
            Some(_) => before.push(last),
            None => before,
        };
        assert forall|k: int| 0 <= k < shown.len() implies 0 <= #[trigger] shown[k]
            < deployments.len() && servers::server_of(deployments[shown[k]], pods) == Some(
            servers::servers_of(deployments, pods)[k],
        ) by {
            if k < before.len() {
                assert(shown[k] == before[k]);
                assert(front[before[k]] == deployments[before[k]]);
            }
        }
        assert forall|i: int|
            0 <= i < deployments.len() && servers::server_of(deployments[i], pods)
                is Some implies #[trigger] shown.contains(i) by {
            if i < last {
                assert(front[i] == deployments[i]);
                assert(before.contains(i));
                let k = choose|k: int| 0 <= k < before.len() && before[k] == i;
                assert(shown[k] == i);
            } else {
                assert(shown[shown.len() - 1] == i);
            }
        }
        shown
    }
}

/// A row is listed before another by their names, and by the places of their
/// deployments where the names are the same.
pub open spec fn goes_before(a: ServerInfo, b: ServerInfo, i: int, j: int) -> bool {
    &&& i != j
    &&& text::text_le(a.name@, b.name@)
    &&& a.name@ == b.name@ ==> i < j
}

/// The list has one row for each deployment that is named `mc-<server>`, by name, and of
/// one name in the order of the deployments. A row has the replicas that its deployment
/// asks for and those that are ready, none where it states none, and its server is
/// enabled if and only if it asks for one at least. Nothing else decides these.
pub proof fn lemma_list_servers(
    deployments: &Vec<DeploymentRow>,
    pods: &Vec<PodRow>,
    rows: Vec<ServerInfo>,
) -> (shown: Seq<int>)
    requires
        call_ensures(servers::list_servers, (deployments, pods), rows) || call_ensures(
            names::handle_servers,
            (Listing::Listed(*deployments, *pods),),
            Response::Json(rows),
        ),
    ensures
        rows@.len() == shown.len(),
        forall|k: int|
            0 <= k < shown.len() ==> {
                &&& 0 <= #[trigger] shown[k] < deployments@.len()
                &&& is_of_server(deployments@[shown[k]], rows@[k].name@)
                &&& rows@[k].replicas == match deployments@[shown[k]].replicas {
                    Some(n) => n,
                    None => 0i32,
                }
                &&& rows@[k].ready == match deployments@[shown[k]].ready {
                    Some(n) => n,
                    None => 0i32,
                }
                &&& rows@[k].enabled <==> rows@[k].replicas >= 1
            },
        forall|i: int, name: Seq<char>|
            0 <= i < deployments@.len() && #[trigger] is_of_server(deployments@[i], name)
                ==> shown.contains(i),
        forall|a: int, b: int|
            0 <= a < b < shown.len() ==> goes_before(
                rows@[a],
                rows@[b],
                #[trigger] shown[a],
                #[trigger] shown[b],
            ),
{
    let ds = deployments.deep_view();
    let ps = pods.deep_view();
    let unsorted = servers::servers_of(ds, ps);
    let all = rows.deep_view();
    let listed = lemma_servers_of_lists(ds, ps);
    let perm = order::lemma_stable_sort_lists(unsorted);
    let shown = Seq::new(perm.len(), |k: int| listed[perm[k]]);
    assert forall|k: int| 0 <= k < shown.len() implies {
        &&& 0 <= #[trigger] shown[k] < deployments@.len()
        &&& is_of_server(deployments@[shown[k]], rows@[k].name@)
        &&& rows@[k].replicas == match deployments@[shown[k]].replicas {
            Some(n) => n,
            None => 0i32,
        }
        &&& rows@[k].ready == match deployments@[shown[k]].ready {
            Some(n) => n,
            None => 0i32,
        }
        &&& rows@[k].enabled <==> rows@[k].replicas >= 1
    } by {
        assert(0 <= perm[k] < unsorted.len());
        let i = listed[perm[k]];
        assert(all[k] == rows@[k].deep_view());
        assert(ds[i] == deployments@[i].deep_view());
        assert(all[k] == unsorted[perm[k]]);
        text::lemma_after_prefix(deployments@[i].name->0@, "mc-"@);
    }
    assert forall|i: int, name: Seq<char>|
        0 <= i < deployments@.len() && #[trigger] is_of_server(
            deployments@[i],
            name,
        ) implies shown.contains(i) by {
        assert(ds[i] == deployments@[i].deep_view());
        text::lemma_after_prefix_of("mc-"@, name);
        assert(listed.contains(i));
        let k = choose|k: int| 0 <= k < listed.len() && listed[k] == i;
        assert(perm.contains(k));
        let m = choose|m: int| 0 <= m < perm.len() && perm[m] == k;
        assert(shown[m] == i);
    }
    assert forall|a: int, b: int| 0 <= a < b < shown.len() implies goes_before(
        rows@[a],
        rows@[b],
        #[trigger] shown[a],
        #[trigger] shown[b],
    ) by {
        assert(perm[a] != perm[b]);
        assert(0 <= perm[a] < listed.len() && 0 <= perm[b] < listed.len());
        assert(all[a] == rows@[a].deep_view() && all[b] == rows@[b].deep_view());
        if perm[a] < perm[b] {
            assert(listed[perm[a]] < listed[perm[b]]);
        } else {
            assert(listed[perm[b]] < listed[perm[a]]);
        }
        text::lemma_text_le_total(rows@[a].name@, rows@[a].name@);
    }
    shown
}

proof fn lemma_last_up_place(pods: Seq<PodRowView>, full: Seq<char>)
    ensures
        match servers::last_up(pods, full) {
            Some(pod) => exists|i: int|
                0 <= i < pods.len() && #[trigger] pods[i] == pod && servers::is_up(pod, full)
                    && forall|j: int|
                    i < j < pods.len() ==> !servers::is_up(#[trigger] pods[j], full),
            None => forall|j: int|
                0 <= j < pods.len() ==> !servers::is_up(#[trigger] pods[j], full),
        },
    decreases pods.len(),
{
    if pods.len() > 0 {
        let front = pods.drop_last();
        let last = pods.len() - 1;
        if servers::is_up(pods.last(), full) {
            assert(pods[last] == pods.last());
        } else {
            lemma_last_up_place(front, full);
            assert forall|j: int| 0 <= j < last implies pods[j] == #[trigger] front[j] by {}
            if let Some(pod) = servers::last_up(front, full) {
                let i = choose|i: int|
                    0 <= i < front.len() && #[trigger] front[i] == pod && servers::is_up(pod, full)
                        && forall|j: int|
                        i < j < front.len() ==> !servers::is_up(#[trigger] front[j], full);
                assert(pods[i] == pod);
                assert forall|j: int| i < j < pods.len() implies !servers::is_up(
                    #[trigger] pods[j],
                    full,
                ) by {
                    if j < last {
                        assert(front[j] == pods[j]);
                    }
                }
            } else {
                assert forall|j: int| 0 <= j < pods.len() implies !servers::is_up(
                    #[trigger] pods[j],
                    full,
                ) by {
                    if j < last {
                        assert(front[j] == pods[j]);
                    }
                }
            }
        }
    }
}

proof fn lemma_last_listed_place(pods: Seq<PodRowView>, full: Seq<char>)
    ensures
        match servers::last_listed(pods, full) {
            Some(pod) => exists|i: int|
                0 <= i < pods.len() && #[trigger] pods[i] == pod && servers::belongs(pod, full)
                    && forall|j: int|
                    i < j < pods.len() ==> !servers::belongs(#[trigger] pods[j], full),
            None => forall|j: int|
                0 <= j < pods.len() ==> !servers::belongs(#[trigger] pods[j], full),
        },
    decreases pods.len(),
{
    if pods.len() > 0 {
        let front = pods.drop_last();
        let last = pods.len() - 1;
        if servers::belongs(pods.last(), full) {
            assert(pods[last] == pods.last());
        } else {
            lemma_last_listed_place(front, full);
            if let Some(pod) = servers::last_listed(front, full) {
                let i = choose|i: int|
                    0 <= i < front.len() && #[trigger] front[i] == pod && servers::belongs(
                        pod,
                        full,
                    ) && forall|j: int|
                        i < j < front.len() ==> !servers::belongs(#[trigger] front[j], full);
                assert(pods[i] == pod);
                assert forall|j: int| i < j < pods.len() implies !servers::belongs(
                    #[trigger] pods[j],
                    full,
                ) by {
                    if j < last {
                        assert(front[j] == pods[j]);
                    }
                }
            } else {
                assert forall|j: int| 0 <= j < pods.len() implies !servers::belongs(
                    #[trigger] pods[j],
                    full,
                ) by {
                    if j < last {
                        assert(front[j] == pods[j]);
                    }
                }
            }
        }
    }
}

/// `row` shows the name and the phase of `pod`.
pub open spec fn shows_pod(row: ServerInfo, pod: PodRow) -> bool {
    same_text(row.pod, pod.name) && same_text(row.phase, pod.phase)
}

/// The pod of a row is the last running pod of its server; where none is running, the
/// last pod of its server; where there is none, the row shows neither pod nor phase.
pub proof fn lemma_list_servers_pods(
    deployments: &Vec<DeploymentRow>,
    pods: &Vec<PodRow>,
    rows: Vec<ServerInfo>,
    k: int,
)
    requires
        call_ensures(servers::list_servers, (deployments, pods), rows) || call_ensures(
            names::handle_servers,
            (Listing::Listed(*deployments, *pods),),
            Response::Json(rows),
        ),
        0 <= k < rows@.len(),
    ensures
        ({
            let row = rows@[k];
            let up = |p: PodRow| is_pod_of_server(p, row.name@) && is_running(p);
            let own = |p: PodRow| is_pod_of_server(p, row.name@);
            ||| exists|i: int|
                0 <= i < pods@.len() && #[trigger] up(pods@[i]) && shows_pod(row, pods@[i])
                    && forall|j: int| i < j < pods@.len() ==> !#[trigger] up(pods@[j])
            ||| {
                &&& forall|j: int| 0 <= j < pods@.len() ==> !#[trigger] up(pods@[j])
                &&& exists|i: int|
                    0 <= i < pods@.len() && #[trigger] own(pods@[i]) && shows_pod(row, pods@[i])
                        && forall|j: int| i < j < pods@.len() ==> !#[trigger] own(pods@[j])
            }
            ||| {
                &&& forall|j: int| 0 <= j < pods@.len() ==> !#[trigger] own(pods@[j])
                &&& row.pod is None
                &&& row.phase is None
            }
        }),
{
    let row = rows@[k];
    let up = |p: PodRow| is_pod_of_server(p, row.name@) && is_running(p);
    let own = |p: PodRow| is_pod_of_server(p, row.name@);
    let ps = pods.deep_view();
    let full = "mc-"@ + row.name@;
    let ds = deployments.deep_view();
    let unsorted = servers::servers_of(ds, ps);
    let listed = lemma_servers_of_lists(ds, ps);
    let perm = order::lemma_stable_sort_lists(unsorted);
    let all = rows.deep_view();
    assert(all[k] == row.deep_view());
    assert(0 <= perm[k] < unsorted.len());
    let d = listed[perm[k]];
    assert(all[k] == unsorted[perm[k]]);
    text::lemma_after_prefix(ds[d].name->0, "mc-"@);
    assert(ds[d].name == Some(full));
    assert((row.pod.deep_view(), row.phase.deep_view()) == servers::pod_of(ps, full));
    assert forall|j: int| 0 <= j < pods@.len() implies #[trigger] ps[j] == pods@[j].deep_view()
        && own(pods@[j]) == servers::belongs(ps[j], full) && up(pods@[j]) == servers::is_up(
        ps[j],
        full,
    ) by {
        lemma_is_pod_of_server(pods@[j], row.name@);
    }
    assert forall|j: int| 0 <= j < pods@.len() implies #[trigger] own(pods@[j])
        == servers::belongs(ps[j], full) by {
        assert(ps[j] == pods@[j].deep_view());
    }
    assert forall|j: int| 0 <= j < pods@.len() implies #[trigger] up(pods@[j]) == servers::is_up(
        ps[j],
        full,
    ) by {
        assert(ps[j] == pods@[j].deep_view());
    }
    lemma_last_up_place(ps, full);
    lemma_last_listed_place(ps, full);
    if let Some(pod) = servers::last_up(ps, full) {
        let i = choose|i: int|
            0 <= i < ps.len() && #[trigger] ps[i] == pod && servers::is_up(pod, full)
                && forall|j: int| i < j < ps.len() ==> !servers::is_up(#[trigger] ps[j], full);
        assert(up(pods@[i]) && shows_pod(row, pods@[i]));
    } else if let Some(pod) = servers::last_listed(ps, full) {
        let i = choose|i: int|
            0 <= i < ps.len() && #[trigger] ps[i] == pod && servers::belongs(pod, full)
                && forall|j: int| i < j < ps.len() ==> !servers::belongs(#[trigger] ps[j], full);
        assert(own(pods@[i]) && shows_pod(row, pods@[i]));
    }
}

}
