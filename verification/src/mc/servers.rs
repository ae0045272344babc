//! The list of servers, from the deployments and the pods of the cluster.

use vstd::prelude::*;

use crate::order;
use crate::order::{Rankable, Ranked};
use crate::text;

verus! {

/// Deployments of servers are named `mc-<server>`.
pub const SERVER_PREFIX: &'static str = "mc-";

/// The label that holds the name of a pod's deployment.
pub const APP_LABEL: &'static str = "app";

/// The phase of a pod that is running.
pub const RUNNING: &'static str = "Running";

/// A pod of the cluster.
pub struct PodRow {
    /// Its labels; no label occurs twice.
    pub labels: Vec<(String, String)>,
    pub name: Option<String>,
    pub phase: Option<String>,
}

pub struct PodRowView {
    pub labels: Seq<(Seq<char>, Seq<char>)>,
    pub name: Option<Seq<char>>,
    pub phase: Option<Seq<char>>,
}

impl DeepView for PodRow {
    type V = PodRowView;

    open spec fn deep_view(&self) -> PodRowView {
        PodRowView {
            labels: self.labels.deep_view(),
            name: self.name.deep_view(),
            phase: self.phase.deep_view(),
        }
    }
}

/// A deployment of the cluster.
pub struct DeploymentRow {
    pub name: Option<String>,
    /// The replicas that it asks for.
    pub replicas: Option<i32>,
    /// The replicas that are ready.
    pub ready: Option<i32>,
}

pub struct DeploymentRowView {
    pub name: Option<Seq<char>>,
    pub replicas: Option<i32>,
    pub ready: Option<i32>,
}

impl DeepView for DeploymentRow {
    type V = DeploymentRowView;

    open spec fn deep_view(&self) -> DeploymentRowView {
        DeploymentRowView {
            name: self.name.deep_view(),
            replicas: self.replicas,
            ready: self.ready,
        }
    }
}

/// One row of the server list.
pub struct ServerInfo {
    /// The server's name, without the prefix of its deployment.
    pub name: String,
    /// Whether it is scaled to one replica or more.
    pub enabled: bool,
    pub replicas: i32,
    pub ready: i32,
    /// The name of its running pod; where none is running, of another pod of it, if
    /// there is one.
    pub pod: Option<String>,
    /// The phase of that pod (Running, Pending and so on), if there is one.
    pub phase: Option<String>,
}

pub struct ServerInfoView {
    pub name: Seq<char>,
    pub enabled: bool,
    pub replicas: i32,
    pub ready: i32,
    pub pod: Option<Seq<char>>,
    pub phase: Option<Seq<char>>,
}

impl DeepView for ServerInfo {
    type V = ServerInfoView;

    open spec fn deep_view(&self) -> ServerInfoView {
        ServerInfoView {
            name: self.name@,
            enabled: self.enabled,
            replicas: self.replicas,
            ready: self.ready,
            pod: self.pod.deep_view(),
            phase: self.phase.deep_view(),
        }
    }
}

/// Servers rank by their names.
impl Ranked for ServerInfoView {
    open spec fn rank_le(a: Self, b: Self) -> bool {
        text::text_le(a.name, b.name)
    }

    proof fn rank_total(a: Self, b: Self) {
        text::lemma_text_le_total(a.name, b.name);
    }

    proof fn rank_transitive(a: Self, b: Self, c: Self) {
        text::lemma_text_le_transitive(a.name, b.name, c.name);
    }
}

impl Rankable for ServerInfo {
    fn rank_at_most(&self, other: &Self) -> bool {
        text::text_at_most(self.name.as_str(), other.name.as_str())
    }
}

/// The value of the first label `key`.
pub open spec fn label(labels: Seq<(Seq<char>, Seq<char>)>, key: Seq<char>) -> Option<Seq<char>>
    decreases labels.len(),
{
    if labels.len() == 0 {
        None
    } else if labels[0].0 == key {
        Some(labels[0].1)
    } else {
        label(labels.drop_first(), key)
    }
}

/// Whether the pod belongs to `deployment` and has a name.
pub open spec fn belongs(pod: PodRowView, deployment: Seq<char>) -> bool {
    label(pod.labels, APP_LABEL@) == Some(deployment) && pod.name is Some
}

/// Whether the pod belongs to `deployment` and is running.
pub open spec fn is_up(pod: PodRowView, deployment: Seq<char>) -> bool {
    belongs(pod, deployment) && pod.phase == Some(RUNNING@)
}

/// The last pod in the list that is a running one of `deployment`.
pub open spec fn last_up(pods: Seq<PodRowView>, deployment: Seq<char>) -> Option<PodRowView>
    decreases pods.len(),
{
    if pods.len() == 0 {
        None
    } else if is_up(pods.last(), deployment) {
        Some(pods.last())
    } else {
        last_up(pods.drop_last(), deployment)
    }
}

/// The last pod in the list that belongs to `deployment`.
pub open spec fn last_listed(pods: Seq<PodRowView>, deployment: Seq<char>) -> Option<PodRowView>
    decreases pods.len(),
{
    if pods.len() == 0 {
        None
    } else if belongs(pods.last(), deployment) {
        Some(pods.last())
    } else {
        last_listed(pods.drop_last(), deployment)
    }
}

/// The name and phase of the last running pod of `deployment`; where none is running,
/// of the last pod that belongs to it.
pub open spec fn pod_of(pods: Seq<PodRowView>, deployment: Seq<char>) -> (
    Option<Seq<char>>,
    Option<Seq<char>>,
) {
    match last_up(pods, deployment) {
        Some(pod) => (pod.name, pod.phase),
        None => match last_listed(pods, deployment) {
            Some(pod) => (pod.name, pod.phase),
            None => (None, None),
        },
    }
}

pub open spec fn or_zero(n: Option<i32>) -> i32 {
    match n {
        Some(n) => n,
        None => 0,
    }
}

/// The row of a deployment, if it is a server's.
pub open spec fn server_of(deployment: DeploymentRowView, pods: Seq<PodRowView>) -> Option<
    ServerInfoView,
> {
    match deployment.name {
        Some(full) => match text::after_prefix(full, SERVER_PREFIX@) {
            Some(name) => Some(
                ServerInfoView {
                    name,
                    enabled: or_zero(deployment.replicas) > 0,
                    replicas: or_zero(deployment.replicas),
                    ready: or_zero(deployment.ready),
                    pod: pod_of(pods, full).0,
                    phase: pod_of(pods, full).1,
                },
            ),
            None => None,
        },
        None => None,
    }
}

/// The rows of the deployments, in the order of the deployments.
pub open spec fn servers_of(
    deployments: Seq<DeploymentRowView>,
    pods: Seq<PodRowView>,
) -> Seq<ServerInfoView>
    decreases deployments.len(),
{
    if deployments.len() == 0 {
        Seq::empty()
    } else {
        match server_of(deployments.last(), pods) {
            Some(row) => servers_of(deployments.drop_last(), pods).push(row),
            None => servers_of(deployments.drop_last(), pods),
        }
    }
}

/// Whether the label `key` of the pod is `value`.
fn labelled(labels: &Vec<(String, String)>, key: &str, value: &str) -> (r: bool)
    ensures
        r == (label(labels.deep_view(), key@) == Some(value@)),
{
    let ghost all = labels.deep_view();
    let mut i: usize = 0;
    assert(all.skip(0) =~= all);
    while i < labels.len()
        invariant
            i <= labels@.len(),
            all == labels.deep_view(),
            label(all, key@) == label(all.skip(i as int), key@),
        decreases labels@.len() - i,
    {
        assert(all.skip(i as int)[0] == all[i as int]);
        assert(all[i as int] == (labels@[i as int].0@, labels@[i as int].1@));
        assert(all.skip(i as int).drop_first() =~= all.skip(i + 1));
        if text::same_text(labels[i].0.as_str(), key) {
            return text::same_text(labels[i].1.as_str(), value);
        }
        i = i + 1;
    }
    false
}

fn pod_belongs(pod: &PodRow, deployment: &str) -> (r: bool)
    ensures
        r == belongs(pod.deep_view(), deployment@),
{
    pod.name.is_some() && labelled(&pod.labels, APP_LABEL, deployment)
}

fn pod_up(pod: &PodRow, deployment: &str) -> (r: bool)
    ensures
        r == is_up(pod.deep_view(), deployment@),
{
    match &pod.phase {
        Some(phase) => text::same_text(phase.as_str(), RUNNING) && pod_belongs(pod, deployment),
        None => false,
    }
}

/// The name and phase of the pod of `deployment`.
fn find_pod(pods: &Vec<PodRow>, deployment: &str) -> (r: (Option<String>, Option<String>))
    ensures
        (r.0.deep_view(), r.1.deep_view()) == pod_of(pods.deep_view(), deployment@),
{
    let ghost all = pods.deep_view();
    assert(all.take(all.len() as int) =~= all);
    let mut i: usize = pods.len();
    while i > 0
        invariant
            i <= pods@.len(),
            all == pods.deep_view(),
            last_up(all, deployment@) == last_up(all.take(i as int), deployment@),
        decreases i,
    {
        i = i - 1;
        let pod = &pods[i];
        assert(all.take(i + 1).last() == pod.deep_view());
        assert(all.take(i + 1).drop_last() =~= all.take(i as int));
        if pod_up(pod, deployment) {
            return (pod.name.clone(), pod.phase.clone());
        }
    }
    let mut i: usize = pods.len();
    while i > 0
        invariant
            i <= pods@.len(),
            all == pods.deep_view(),
            last_up(all, deployment@) is None,
            last_listed(all, deployment@) == last_listed(all.take(i as int), deployment@),
        decreases i,
    {
        i = i - 1;
        let pod = &pods[i];
        assert(all.take(i + 1).last() == pod.deep_view());
        assert(all.take(i + 1).drop_last() =~= all.take(i as int));
        if pod_belongs(pod, deployment) {
            return (pod.name.clone(), pod.phase.clone());
        }
    }
    (None, None)
}

fn server_row(deployment: &DeploymentRow, pods: &Vec<PodRow>) -> (r: Option<ServerInfo>)
    ensures
        r.deep_view() == server_of(deployment.deep_view(), pods.deep_view()),
{
    match &deployment.name {
        Some(full) => match text::strip_prefix(full.as_str(), SERVER_PREFIX) {
            Some(name) => {
                let replicas = deployment.replicas.unwrap_or(0);
                let ready = deployment.ready.unwrap_or(0);
                let (pod, phase) = find_pod(pods, full.as_str());
                Some(ServerInfo { name, enabled: replicas > 0, replicas, ready, pod, phase })
            },
            None => None,
        },
        None => None,
    }
}

/// The servers of the cluster, by name. A server is a deployment, so one that is
/// scaled to no replica is listed too; each is joined with its running pod for name and
/// phase.
pub fn list_servers(deployments: &Vec<DeploymentRow>, pods: &Vec<PodRow>) -> (r: Vec<ServerInfo>)
    ensures
        r.deep_view() == order::stable_sorted(
            servers_of(deployments.deep_view(), pods.deep_view()),
        ),
{
    let ghost all = deployments.deep_view();
    let mut rows: Vec<ServerInfo> = Vec::new();
    let mut i: usize = 0;
    assert(rows.deep_view() =~= servers_of(all.take(0), pods.deep_view()));
    while i < deployments.len()
        invariant
            i <= deployments@.len(),
            all == deployments.deep_view(),
            rows.deep_view() == servers_of(all.take(i as int), pods.deep_view()),
        decreases deployments@.len() - i,
    {
        let ghost before = rows.deep_view();
        assert(all.take(i + 1).last() == deployments@[i as int].deep_view());
        assert(all.take(i + 1).drop_last() =~= all.take(i as int));
        if let Some(row) = server_row(&deployments[i], pods) {
            rows.push(row);
            assert(rows.deep_view() =~= before.push(row.deep_view()));
        }
        i = i + 1;
    }
    assert(all.take(i as int) =~= all);
    order::stable_sort(rows)
}

// --- Laws ---

/// The servers stand in the order of their names.
pub proof fn lemma_servers_by_name(deployments: Seq<DeploymentRowView>, pods: Seq<PodRowView>)
    ensures
        forall|i: int, j: int|
            0 <= i <= j < order::stable_sorted(servers_of(deployments, pods)).len()
                ==> text::text_le(
                (#[trigger] order::stable_sorted(servers_of(deployments, pods))[i]).name,
                (#[trigger] order::stable_sorted(servers_of(deployments, pods))[j]).name,
            ),
{
    let rows = servers_of(deployments, pods);
    order::lemma_stable_sort_exists(rows);
    let r = order::stable_sorted(rows);
    assert forall|i: int, j: int| 0 <= i <= j < r.len() implies text::text_le(
        (#[trigger] r[i]).name,
        (#[trigger] r[j]).name,
    ) by {
        assert(ServerInfoView::rank_le(r[i], r[j]));
    }
}

proof fn lemma_servers_of_member(
    deployments: Seq<DeploymentRowView>,
    pods: Seq<PodRowView>,
    row: ServerInfoView,
)
    ensures
        servers_of(deployments, pods).contains(row) <==> exists|i: int|
            0 <= i < deployments.len() && server_of(#[trigger] deployments[i], pods) == Some(row),
    decreases deployments.len(),
{
    let rows = servers_of(deployments, pods);
    if deployments.len() > 0 {
        let front = deployments.drop_last();
        let rest = servers_of(front, pods);
        lemma_servers_of_member(front, pods, row);
        if rows.contains(row) {
            let k = choose|k: int| 0 <= k < rows.len() && rows[k] == row;
            if k < rest.len() {
                assert(rest[k] == row);
                let i = choose|i: int|
                    0 <= i < front.len() && server_of(#[trigger] front[i], pods) == Some(row);
                assert(deployments[i] == front[i]);
            } else {
                assert(server_of(deployments[deployments.len() - 1], pods) == Some(row));
            }
        }
        if exists|i: int|
            0 <= i < deployments.len() && server_of(#[trigger] deployments[i], pods) == Some(row) {
            let i = choose|i: int|
                0 <= i < deployments.len() && server_of(#[trigger] deployments[i], pods) == Some(
                    row,
                );
            if i < front.len() {
                assert(front[i] == deployments[i]);
                assert(rest.contains(row));
                let k = choose|k: int| 0 <= k < rest.len() && rest[k] == row;
                assert(rows[k] == row);
            } else {
                assert(rows[rows.len() - 1] == row);
            }
        }
    } else {
        assert(!rows.contains(row));
    }
}

/// The list holds the row of every server's deployment, one scaled to no replica
/// among them, and nothing else.
pub proof fn lemma_servers_complete(
    deployments: Seq<DeploymentRowView>,
    pods: Seq<PodRowView>,
    row: ServerInfoView,
)
    ensures
        order::stable_sorted(servers_of(deployments, pods)).contains(row) <==> exists|i: int|
            0 <= i < deployments.len() && server_of(#[trigger] deployments[i], pods) == Some(row),
{
    broadcast use vstd::seq_lib::group_to_multiset_ensures;

    let rows = servers_of(deployments, pods);
    order::lemma_stable_sort_multiset(rows);
    lemma_servers_of_member(deployments, pods, row);
    assert(rows.contains(row) <==> rows.to_multiset().contains(row));
    assert(order::stable_sorted(rows).contains(row) <==> order::stable_sorted(
        rows,
    ).to_multiset().contains(row));
}

proof fn lemma_last_up(pods: Seq<PodRowView>, deployment: Seq<char>)
    ensures
        match last_up(pods, deployment) {
            Some(pod) => pods.contains(pod) && is_up(pod, deployment),
            None => forall|i: int|
                0 <= i < pods.len() ==> !is_up(#[trigger] pods[i], deployment),
        },
    decreases pods.len(),
{
    if pods.len() > 0 {
        let front = pods.drop_last();
        if is_up(pods.last(), deployment) {
            assert(pods[pods.len() - 1] == pods.last());
        } else {
            lemma_last_up(front, deployment);
            match last_up(front, deployment) {
                Some(pod) => {
                    let i = choose|i: int| 0 <= i < front.len() && front[i] == pod;
                    assert(pods[i] == pod);
                },
                None => {
                    assert forall|i: int| 0 <= i < pods.len() implies !is_up(
                        #[trigger] pods[i],
                        deployment,
                    ) by {
                        if i < front.len() {
                            assert(front[i] == pods[i]);
                        }
                    }
                },
            }
        }
    }
}

proof fn lemma_last_listed(pods: Seq<PodRowView>, deployment: Seq<char>)
    ensures
        match last_listed(pods, deployment) {
            Some(pod) => pods.contains(pod) && belongs(pod, deployment),
            None => forall|i: int|
                0 <= i < pods.len() ==> !belongs(#[trigger] pods[i], deployment),
        },
    decreases pods.len(),
{
    if pods.len() > 0 {
        let front = pods.drop_last();
        if belongs(pods.last(), deployment) {
            assert(pods[pods.len() - 1] == pods.last());
        } else {
            lemma_last_listed(front, deployment);
            match last_listed(front, deployment) {
                Some(pod) => {
                    let i = choose|i: int| 0 <= i < front.len() && front[i] == pod;
                    assert(pods[i] == pod);
                },
                None => {
                    assert forall|i: int| 0 <= i < pods.len() implies !belongs(
                        #[trigger] pods[i],
                        deployment,
                    ) by {
                        if i < front.len() {
                            assert(front[i] == pods[i]);
                        }
                    }
                },
            }
        }
    }
}

/// A server with a running pod is shown with a running pod of its own, whatever other
/// pods of it are listed.
pub proof fn lemma_running_pod_is_shown(
    deployment: DeploymentRowView,
    pods: Seq<PodRowView>,
    full: Seq<char>,
    row: ServerInfoView,
    up: int,
)
    requires
        deployment.name == Some(full),
        server_of(deployment, pods) == Some(row),
        0 <= up < pods.len(),
        is_up(pods[up], full),
    ensures
        row.phase == Some(RUNNING@),
        exists|i: int|
            0 <= i < pods.len() && is_up(#[trigger] pods[i], full) && row.pod == pods[i].name,
{
    lemma_last_up(pods, full);
    let pod = last_up(pods, full)->0;
    let i = choose|i: int| 0 <= i < pods.len() && pods[i] == pod;
    assert(is_up(pods[i], full) && row.pod == pods[i].name);
}

/// A server is shown with a pod if and only if one belongs to it, and then with the name
/// and the phase of one that does.
pub proof fn lemma_pod_shown_is_its_own(
    deployment: DeploymentRowView,
    pods: Seq<PodRowView>,
    full: Seq<char>,
    row: ServerInfoView,
)
    requires
        deployment.name == Some(full),
        server_of(deployment, pods) == Some(row),
    ensures
        row.pod is Some ==> exists|i: int|
            0 <= i < pods.len() && belongs(#[trigger] pods[i], full) && row.pod == pods[i].name
                && row.phase == pods[i].phase,
        row.pod is None ==> row.phase is None && forall|i: int|
            0 <= i < pods.len() ==> !belongs(#[trigger] pods[i], full),
{
    lemma_last_up(pods, full);
    lemma_last_listed(pods, full);
    let shown = match last_up(pods, full) {
        Some(pod) => Some(pod),
        None => last_listed(pods, full),
    };
    if let Some(pod) = shown {
        let i = choose|i: int| 0 <= i < pods.len() && pods[i] == pod;
        assert(belongs(pods[i], full) && row.pod == pods[i].name && row.phase == pods[i].phase);
    }
}

}
