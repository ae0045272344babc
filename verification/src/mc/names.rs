//! Server names, and what is addressed by them.

use vstd::prelude::*;

use crate::http;
use crate::http::{Response, Status};
use crate::mc::servers;
use crate::mc::servers::{DeploymentRow, PodRow, ServerInfo};
use crate::order;
use crate::text;
use vstd::string::StringExecFns;

verus! {

/// The container that runs the server. A pod may run others beside it.
pub const MC_CONTAINER: &'static str = "minecraft-server";

/// The longest server name.
pub const NAME_MAX: usize = 63;

/// What the panel is told by its environment.
pub struct McConfig {
    pub namespace: String,
    pub rcon_port: String,
    pub rcon_password: String,
    pub loki_url: String,
}

/// The panel's settings from the environment's variables, with the defaults of the
/// servers' chart for those that are not set.
pub fn mc_config(
    namespace: Option<String>,
    rcon_port: Option<String>,
    rcon_password: Option<String>,
    loki_url: Option<String>,
) -> (r: McConfig)
    ensures
        r.namespace@ == (if namespace is Some {
            namespace->0@
        } else {
            "mc"@
        }),
        r.rcon_port@ == (if rcon_port is Some {
            rcon_port->0@
        } else {
            "25575"@
        }),
        r.rcon_password@ == (if rcon_password is Some {
            rcon_password->0@
        } else {
            "minecraft"@
        }),
        r.loki_url@ == (if loki_url is Some {
            loki_url->0@
        } else {
            "http://loki.monitoring.svc.cluster.local:3100"@
        }),
{
    McConfig {
        namespace: http::env_or(namespace, "mc"),
        rcon_port: http::env_or(rcon_port, "25575"),
        rcon_password: http::env_or(rcon_password, "minecraft"),
        loki_url: http::env_or(loki_url, "http://loki.monitoring.svc.cluster.local:3100"),
    }
}

/// A char that a server name may hold.
pub open spec fn is_name_char(c: char) -> bool {
    text::is_alphanumeric(c) || c == '-'
}

/// A name that can stand in a label selector and in a DNS name.
pub open spec fn is_valid_name(name: Seq<char>) -> bool {
    &&& 0 < name.len() <= NAME_MAX
    &&& forall|i: int| 0 <= i < name.len() ==> is_name_char(#[trigger] name[i])
}

/// Whether `name` can stand in a label selector and in a DNS name: not empty, at most
/// 63 long, and made of ASCII letters, digits and hyphens.
pub fn valid_name(name: &str) -> (r: bool)
    ensures
        r == is_valid_name(name@),
{
    let cs = text::chars_of(name);
    if cs.len() == 0 || cs.len() > NAME_MAX {
        return false;
    }
    let mut i: usize = 0;
    while i < cs.len()
        invariant
            i <= cs@.len(),
            cs@ == name@,
            forall|j: int| 0 <= j < i ==> is_name_char(#[trigger] name@[j]),
        decreases cs@.len() - i,
    {
        if !text::alphanumeric_char(cs[i]) && cs[i] != '-' {
            return false;
        }
        i = i + 1;
    }
    true
}

/// The selector of the pods of a server.
pub open spec fn selector_text(name: Seq<char>) -> Seq<char> {
    "app=mc-"@ + name
}

pub fn selector(name: &str) -> (r: String)
    ensures
        r@ == selector_text(name@),
{
    let mut r = String::new();
    r.append("app=mc-");
    r.append(name);
    r
}

/// The address of a server's console.
pub open spec fn rcon_address_text(
    name: Seq<char>,
    namespace: Seq<char>,
    port: Seq<char>,
) -> Seq<char> {
    "mc-"@ + name + "-rcon."@ + namespace + ".svc.cluster.local:"@ + port
}

pub fn rcon_address(name: &str, namespace: &str, port: &str) -> (r: String)
    ensures
        r@ == rcon_address_text(name@, namespace@, port@),
{
    let mut r = String::new();
    r.append("mc-");
    r.append(name);
    r.append("-rcon.");
    r.append(namespace);
    r.append(".svc.cluster.local:");
    r.append(port);
    r
}

/// The answer where no cluster client could be built.
pub fn unavailable<B>() -> (r: Response<B>)
    ensures
        r.says(Status::ServiceUnavailable, "k8s client unavailable"@),
{
    Response::text(Status::ServiceUnavailable, "k8s client unavailable")
}

/// The answer where the cluster or the log store failed.
pub fn bad_gateway<B>() -> (r: Response<B>)
    ensures
        r.says(Status::BadGateway, "upstream error"@),
{
    Response::text(Status::BadGateway, "upstream error")
}

/// The answer to a name that is none.
pub fn invalid_name<B>() -> (r: Response<B>)
    ensures
        r.says(Status::BadRequest, "invalid server name"@),
{
    Response::text(Status::BadRequest, "invalid server name")
}

/// What came of listing the deployments and the pods of the cluster.
pub enum Listing {
    /// There is no cluster client.
    NoClient,
    /// The cluster did not answer.
    Failed,
    Listed(Vec<DeploymentRow>, Vec<PodRow>),
}

/// The answer to a request for the server list.
pub fn handle_servers(listing: Listing) -> (r: Response<Vec<ServerInfo>>)
    ensures
        match listing {
            Listing::NoClient => r.says(Status::ServiceUnavailable, "k8s client unavailable"@),
            Listing::Failed => r.says(Status::BadGateway, "upstream error"@),
            Listing::Listed(deployments, pods) => r matches Response::Json(rows)
                && rows.deep_view() == order::stable_sorted(
                servers::servers_of(deployments.deep_view(), pods.deep_view()),
            ),
        },
{
    match listing {
        Listing::NoClient => unavailable(),
        Listing::Failed => bad_gateway(),
        Listing::Listed(deployments, pods) => Response::Json(
            servers::list_servers(&deployments, &pods),
        ),
    }
}

// --- Laws ---

/// The selector of a valid name is one `app` label: it holds no separator of the
/// selector language but the one equals sign of its own.
pub proof fn lemma_selector_is_one_label(name: Seq<char>)
    requires
        is_valid_name(name),
    ensures
        forall|i: int|
            0 <= i < selector_text(name).len() && i != 3 ==> is_name_char(
                #[trigger] selector_text(name)[i],
            ),
        selector_text(name)[3] == '=',
{
    reveal_strlit("app=mc-");
    let s = selector_text(name);
    assert forall|i: int| 0 <= i < s.len() && i != 3 implies is_name_char(#[trigger] s[i]) by {
        if i >= 7 {
            assert(s[i] == name[i - 7]);
        } else {
            assert(s[i] == "app=mc-"@[i]);
        }
    }
}

/// Different valid names in one namespace have different console addresses.
pub proof fn lemma_rcon_addresses_differ(
    a: Seq<char>,
    b: Seq<char>,
    namespace: Seq<char>,
    port: Seq<char>,
)
    requires
        a != b,
    ensures
        rcon_address_text(a, namespace, port) != rcon_address_text(b, namespace, port),
{
    let head = "mc-"@;
    let rest = "-rcon."@ + namespace + ".svc.cluster.local:"@ + port;
    let x = rcon_address_text(a, namespace, port);
    let y = rcon_address_text(b, namespace, port);
    assert(x =~= head + a + rest);
    assert(y =~= head + b + rest);
    if x == y {
        assert(a.len() == b.len());
        assert(x.subrange(head.len() as int, (head.len() + a.len()) as int) =~= a);
        assert(y.subrange(head.len() as int, (head.len() + b.len()) as int) =~= b);
    }
}

}
