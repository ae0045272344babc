//! Laws of the panel: the names of servers, the answers, the query for the history, and
//! the steps of the live log and of the console.

use vstd::prelude::*;

use crate::http::{Response, Status};
use crate::mc::boots::Boot;
use crate::mc::history;
use crate::mc::history::{HistoryParams, LokiAnswer, LokiQuery};
use crate::mc::logs;
use crate::mc::logs::{LogAction, LogEvent, LogState};
use crate::mc::names;
use crate::mc::names::{Listing, McConfig};
use crate::mc::rcon;
use crate::mc::rcon::{RconAction, RconEvent, RconState};
use crate::mc::servers::ServerInfo;
use crate::mc::socket::Incoming;
use crate::text;

verus! {

// --- Names ---

/// A name: 1 to 63 ASCII letters, digits and hyphens.
pub open spec fn is_name(name: Seq<char>) -> bool {
    &&& 1 <= name.len() <= 63
    &&& forall|i: int| 0 <= i < name.len() ==> may_name(#[trigger] name[i])
}

/// An ASCII letter or digit, or a hyphen.
pub open spec fn may_name(c: char) -> bool {
    48 <= c as u32 <= 57 || 65 <= c as u32 <= 90 || 97 <= c as u32 <= 122 || c as u32 == 45
}

proof fn lemma_may_name(c: char)
    ensures
        may_name(c) == names::is_name_char(c),
{
}

proof fn lemma_is_name(name: Seq<char>)
    ensures
        is_name(name) == names::is_valid_name(name),
{
    assert forall|i: int| 0 <= i < name.len() implies may_name(#[trigger] name[i])
        == names::is_name_char(name[i]) by {
        lemma_may_name(name[i]);
    }
}

/// Which names are valid.
pub proof fn lemma_valid_name(name: &str, valid: bool)
    requires
        call_ensures(names::valid_name, (name,), valid),
    ensures
        valid == is_name(name@),
{
    lemma_is_name(name@);
}

/// How the pods and the console of a server are addressed.
pub proof fn lemma_addresses(
    name: &str,
    namespace: &str,
    port: &str,
    selector: String,
    address: String,
)
    requires
        call_ensures(names::selector, (name,), selector),
        call_ensures(names::rcon_address, (name, namespace, port), address),
    ensures
        selector@ == "app=mc-"@ + name@,
        address@ == "mc-"@ + name@ + "-rcon."@ + namespace@ + ".svc.cluster.local:"@ + port@,
{
}

/// Each setting is the environment's variable, or its default where that is not set.
pub proof fn lemma_mc_config(
    namespace: Option<String>,
    port: Option<String>,
    password: Option<String>,
    loki_url: Option<String>,
    config: McConfig,
)
    requires
        call_ensures(names::mc_config, (namespace, port, password, loki_url), config),
    ensures
        namespace is Some ==> config.namespace@ == namespace->0@,
        namespace is None ==> config.namespace@ == "mc"@,
        port is Some ==> config.rcon_port@ == port->0@,
        port is None ==> config.rcon_port@ == "25575"@,
        password is Some ==> config.rcon_password@ == password->0@,
        password is None ==> config.rcon_password@ == "minecraft"@,
        loki_url is Some ==> config.loki_url@ == loki_url->0@,
        loki_url is None ==> config.loki_url@ == "http://loki.monitoring.svc.cluster.local:3100"@,
{
}

// --- Answers ---

/// An answer with a status and a text.
pub open spec fn says<B>(response: Response<B>, status: Status, message: Seq<char>) -> bool {
    response matches Response::Text(s, m) && s == status && m@ == message
}

/// The answers to what cannot be done.
pub proof fn lemma_refusals<B>(none: Response<B>, failed: Response<B>, invalid: Response<B>)
    requires
        call_ensures(names::unavailable::<B>, (), none),
        call_ensures(names::bad_gateway::<B>, (), failed),
        call_ensures(names::invalid_name::<B>, (), invalid),
    ensures
        says(none, Status::ServiceUnavailable, "k8s client unavailable"@),
        says(failed, Status::BadGateway, "upstream error"@),
        says(invalid, Status::BadRequest, "invalid server name"@),
{
}

/// The servers are answered with exactly where they could be listed.
pub proof fn lemma_handle_servers(listing: Listing, response: Response<Vec<ServerInfo>>)
    requires
        call_ensures(names::handle_servers, (listing,), response),
    ensures
        listing is NoClient ==> says(
            response,
            Status::ServiceUnavailable,
            "k8s client unavailable"@,
        ),
        listing is Failed ==> says(response, Status::BadGateway, "upstream error"@),
        listing is Listed ==> response is Json,
{
}

/// The history is answered with exactly where the log store has answered with success
/// and with streams.
pub proof fn lemma_history_response(
    answer: LokiAnswer,
    params: &HistoryParams,
    response: Response<Vec<Boot>>,
)
    requires
        call_ensures(history::history_response, (answer, params), response),
    ensures
        match answer {
            LokiAnswer::Answered { status, streams } => if 200 <= status <= 299 && streams is Some {
                response is Json
            } else {
                says(response, Status::BadGateway, "upstream error"@)
            },
            LokiAnswer::Failed => says(response, Status::BadGateway, "upstream error"@),
        },
{
    if let LokiAnswer::Answered { status, streams } = answer {
        if streams is Some && 200 <= status <= 299 {
            assert(history::is_success(status));
        }
    }
}

// --- The query for the history ---

/// What a request for the history asks for, by what it gives: ten boots of five hundred
/// lines, from thirty days, unless it says otherwise.
pub proof fn lemma_history_params(
    boots: Option<usize>,
    lines: Option<usize>,
    hours: Option<u64>,
    params: HistoryParams,
    few: usize,
    many: usize,
    month: u64,
)
    requires
        call_ensures(history::history_params, (boots, lines, hours), params),
        call_ensures(history::default_boots, (), few),
        call_ensures(history::default_lines, (), many),
        call_ensures(history::default_lookback_hours, (), month),
    ensures
        boots is Some ==> params.boots == boots->0,
        boots is None ==> params.boots == 10,
        lines is Some ==> params.lines == lines->0,
        lines is None ==> params.lines == 500,
        hours is Some ==> params.lookback_hours == hours->0,
        hours is None ==> params.lookback_hours == 720,
        few == 10,
        many == 500,
        month == 720,
{
}

/// `query` asks for the lines of a server's container, the newest first, from `start` to
/// the present and up to `limit` of them.
pub open spec fn asks(
    query: LokiQuery,
    config: McConfig,
    name: Seq<char>,
    start: int,
    now_ns: int,
    limit: int,
) -> bool {
    let params = query.params@;
    &&& query.url@ == config.loki_url@ + "/loki/api/v1/query_range"@
    &&& params.len() == 5
    &&& params[0].0@ == "query"@
    &&& params[0].1@ == "{namespace=\""@ + config.namespace@ + "\", app=\"mc-"@ + name
        + "\", container=\""@ + "minecraft-server"@ + "\"}"@
    &&& params[1].0@ == "start"@
    &&& params[1].1@ == text::decimal(start as nat)
    &&& params[2].0@ == "end"@
    &&& params[2].1@ == text::decimal(now_ns as nat)
    &&& params[3].0@ == "direction"@
    &&& params[3].1@ == "backward"@
    &&& params[4].0@ == "limit"@
    &&& params[4].1@ == text::decimal(limit as nat)
}

/// `start` is so many hours before now, at least the epoch.
pub open spec fn starts(now_ns: int, hours: int, start: int) -> bool {
    &&& start >= 0
    &&& now_ns - start <= hours * 3_600_000_000_000
    &&& start > 0 ==> now_ns - start == hours * 3_600_000_000_000
}

/// `limit` is the product, at most five thousand.
pub open spec fn limits(boots: int, lines: int, limit: int) -> bool {
    &&& limit <= 5000
    &&& limit <= boots * lines
    &&& limit == 5000 || limit == boots * lines
}

proof fn lemma_asks(
    query: LokiQuery,
    config: McConfig,
    name: Seq<char>,
    params: HistoryParams,
    now_ns: u64,
) -> (bounds: (int, int))
    requires
        query.deep_view() == history::history_query(
            config.loki_url@,
            config.namespace@,
            name,
            params,
            now_ns,
        ),
    ensures
        asks(query, config, name, bounds.0, now_ns as int, bounds.1),
        starts(now_ns as int, params.lookback_hours as int, bounds.0),
        limits(params.boots as int, params.lines as int, bounds.1),
{
    let shown = query.params.deep_view();
    assert(query.deep_view().params == shown);
    assert forall|i: int| 0 <= i < query.params@.len() implies #[trigger] shown[i] == (
        query.params@[i].0@,
        query.params@[i].1@,
    ) by {}
    assert(shown.len() == query.params@.len());
    assert(shown[0].0 == query.params@[0].0@);
    assert(shown[1].0 == query.params@[1].0@);
    assert(shown[2].0 == query.params@[2].0@);
    assert(shown[3].0 == query.params@[3].0@);
    assert(shown[4].0 == query.params@[4].0@);
    let hours = params.lookback_hours;
    assert(hours * 3_600_000_000_000u64 >= 0) by (nonlinear_arith);
    assert(params.boots * params.lines >= 0) by (nonlinear_arith)
        requires
            params.boots >= 0,
            params.lines >= 0,
    ;
    (
        history::lookback_start(now_ns, hours) as int,
        history::line_limit(params.boots, params.lines) as int,
    )
}

/// The query for the history, and the answer to a name that is none.
pub proof fn lemma_history(
    config: &McConfig,
    name: &str,
    params: &HistoryParams,
    now_ns: u64,
    fetched: LokiQuery,
    r: Result<LokiQuery, Response<Vec<Boot>>>,
) -> (bounds: (int, int))
    requires
        call_ensures(history::fetch_history, (config, name, params, now_ns), fetched),
        call_ensures(history::history, (config, name, params, now_ns), r),
    ensures
        starts(now_ns as int, params.lookback_hours as int, bounds.0),
        limits(params.boots as int, params.lines as int, bounds.1),
        asks(fetched, *config, name@, bounds.0, now_ns as int, bounds.1),
        r is Ok <==> is_name(name@),
        r matches Ok(query) ==> asks(query, *config, name@, bounds.0, now_ns as int, bounds.1),
        r matches Err(response) ==> says(response, Status::BadRequest, "invalid server name"@),
{
    lemma_is_name(name@);
    if let Ok(query) = r {
        lemma_asks(query, *config, name@, *params, now_ns);
    }
    lemma_asks(fetched, *config, name@, *params, now_ns)
}

// --- The live log ---

/// A request for the live log is let through for a name, and with a cluster client; its
/// first step lists the server's pods.
pub proof fn lemma_logs_ws(
    name: &str,
    has_client: bool,
    r: Result<(LogState, LogAction), Response<()>>,
)
    requires
        call_ensures(logs::logs_ws, (name, has_client), r),
    ensures
        r is Ok <==> is_name(name@) && has_client,
        r matches Ok(step) ==> (step.0 matches LogState::Listing { name: listed } && listed@
            == name@),
        r matches Ok(step) ==> (step.1 matches LogAction::ListPods { selector } && selector@
            == "app=mc-"@ + name@),
        r matches Err(response) ==> if !is_name(name@) {
            says(response, Status::BadRequest, "invalid server name"@)
        } else {
            says(response, Status::ServiceUnavailable, "k8s client unavailable"@)
        },
{
    lemma_is_name(name@);
}

/// The text that is sent to the client of a live log.
pub open spec fn tells(action: LogAction, message: Seq<char>) -> bool {
    action matches LogAction::Send(m) && m@ == message
}

proof fn lemma_first_named(pods: Seq<Option<String>>)
    ensures
        match logs::first_named(pods) {
            Some(pod) => exists|i: int|
                0 <= i < pods.len() && #[trigger] pods[i] == Some(pod) && forall|j: int|
                    0 <= j < i ==> (#[trigger] pods[j]) is None,
            None => forall|j: int| 0 <= j < pods.len() ==> (#[trigger] pods[j]) is None,
        },
    decreases pods.len(),
{
    if pods.len() > 0 && pods[0] is None {
        let rest = pods.drop_first();
        lemma_first_named(rest);
        match logs::first_named(rest) {
            Some(pod) => {
                let i = choose|i: int|
                    0 <= i < rest.len() && #[trigger] rest[i] == Some(pod) && forall|j: int|
                        0 <= j < i ==> (#[trigger] rest[j]) is None;
                assert(pods[i + 1] == Some(pod));
                assert forall|j: int| 0 <= j < i + 1 implies (#[trigger] pods[j]) is None by {
                    if j > 0 {
                        assert(rest[j - 1] == pods[j]);
                    }
                }
            },
            None => {
                assert forall|j: int| 0 <= j < pods.len() implies (#[trigger] pods[j]) is None by {
                    if j > 0 {
                        assert(rest[j - 1] == pods[j]);
                    }
                }
            },
        }
    } else if pods.len() > 0 {
        assert(pods[0] == Some(pods[0]->0));
    }
}

/// The log of the first pod that has a name is opened, with its last five hundred
/// lines; without such a pod the client is told so.
pub proof fn lemma_pods_listed(
    name: String,
    pods: Vec<Option<String>>,
    r: (LogState, LogAction),
)
    requires
        call_ensures(
            logs::stream_logs,
            (LogState::Listing { name }, LogEvent::PodsListed(pods)),
            r,
        ),
    ensures
        (forall|j: int| 0 <= j < pods@.len() ==> (#[trigger] pods@[j]) is None) ==> r.0 is Reporting
            && tells(r.1, "no running pod for "@ + name@),
        (exists|j: int| 0 <= j < pods@.len() && (#[trigger] pods@[j]) is Some) ==> {
            &&& r.0 is Opening
            &&& r.1 matches LogAction::OpenLog { pod, container, tail_lines }
            &&& container@ == "minecraft-server"@
            &&& tail_lines == 500
            &&& exists|i: int|
                0 <= i < pods@.len() && #[trigger] pods@[i] == Some(pod) && forall|j: int|
                    0 <= j < i ==> (#[trigger] pods@[j]) is None
        },
{
    lemma_first_named(pods@);
}

/// The steps of a live log once a pod was looked for: what fails is told, lines reach
/// the client as they are, and a quiet log pings. It ends when the client has gone, when
/// the stream has ended, when a send has failed and once the last text was sent.
pub proof fn lemma_stream_logs(state: LogState, event: LogEvent, r: (LogState, LogAction))
    requires
        call_ensures(logs::stream_logs, (state, event), r),
        !(state is Listing && event is PodsListed),
    ensures
        match (state, event) {
            (LogState::Listing { .. }, LogEvent::ListFailed(err)) => r.0 is Reporting && tells(
                r.1,
                "error: "@ + err@,
            ),
            (LogState::Opening, LogEvent::OpenFailed(err)) => r.0 is Reporting && tells(
                r.1,
                "error: "@ + err@,
            ),
            (LogState::Opening, LogEvent::Opened) => r.0 is Waiting && r.1 is Wait,
            (LogState::Waiting, LogEvent::Line(line)) => r.0 is Sending && tells(r.1, line@),
            (LogState::Waiting, LogEvent::StreamFailed(err)) => r.0 is Reporting && tells(
                r.1,
                "stream error: "@ + err@,
            ),
            (LogState::Waiting, LogEvent::Client(Incoming::Text(_))) => r.0 is Waiting
                && r.1 is Wait,
            (LogState::Waiting, LogEvent::Client(Incoming::Other)) => r.0 is Waiting && r.1 is Wait,
            (LogState::Waiting, LogEvent::Heartbeat) => r.0 is Sending && r.1 is Ping,
            (LogState::Sending, LogEvent::Sent) => r.0 is Waiting && r.1 is Wait,
            _ => r.0 is Done && r.1 is Stop,
        },
{
}

/// The client has gone where the socket has ended, failed or was closed.
pub proof fn lemma_goodbye(incoming: &Incoming, gone: bool)
    requires
        call_ensures(Incoming::goodbye, (incoming,), gone),
    ensures
        !gone <==> *incoming is Text || *incoming is Other,
{
}

// --- The console ---

/// A request for the console is let through for a name, and with a cluster client; its
/// first step connects to the server's address with the password.
pub proof fn lemma_rcon_ws(
    name: &str,
    has_client: bool,
    config: &McConfig,
    r: Result<(RconState, RconAction), Response<()>>,
)
    requires
        call_ensures(rcon::rcon_ws, (name, has_client, config), r),
    ensures
        r is Ok <==> is_name(name@) && has_client,
        r matches Ok(step) ==> (step.0 matches RconState::Connecting { addr } && addr@ == "mc-"@
            + name@ + "-rcon."@ + config.namespace@ + ".svc.cluster.local:"@ + config.rcon_port@),
        r matches Ok(step) ==> (step.1 matches RconAction::Connect { addr, password } && addr@
            == "mc-"@ + name@ + "-rcon."@ + config.namespace@ + ".svc.cluster.local:"@
            + config.rcon_port@ && password@ == config.rcon_password@),
        r matches Err(response) ==> if !is_name(name@) {
            says(response, Status::BadRequest, "invalid server name"@)
        } else {
            says(response, Status::ServiceUnavailable, "k8s client unavailable"@)
        },
{
    lemma_is_name(name@);
}

/// The text that is sent to the client of a console.
pub open spec fn answers(action: RconAction, message: Seq<char>) -> bool {
    action matches RconAction::Send(m) && m@ == message
}

/// `command` is `frame` cut at two places, all outside of them being white space, and
/// neither begins nor ends with any.
pub open spec fn is_cut(frame: Seq<char>, from: int, to: int, command: Seq<char>) -> bool {
    &&& 0 <= from < to <= frame.len()
    &&& command == frame.subrange(from, to)
    &&& forall|i: int| 0 <= i < from ==> text::is_white(#[trigger] frame[i])
    &&& forall|i: int| to <= i < frame.len() ==> text::is_white(#[trigger] frame[i])
    &&& !text::is_white(frame[from])
    &&& !text::is_white(frame[to - 1])
}

/// What the client sends runs as a command, without the white space at its ends; a text
/// of nothing else is passed over.
pub proof fn lemma_rcon_received(frame: String, r: (RconState, RconAction))
    requires
        call_ensures(
            rcon::handle_rcon,
            (RconState::Receiving, RconEvent::Client(Incoming::Text(frame))),
            r,
        ),
    ensures
        (forall|i: int| 0 <= i < frame@.len() ==> text::is_white(#[trigger] frame@[i]))
            ==> r.0 is Receiving && r.1 is Receive,
        (exists|i: int| 0 <= i < frame@.len() && !text::is_white(#[trigger] frame@[i])) ==> {
            &&& r.0 is Running
            &&& r.1 matches RconAction::Run(command)
            &&& exists|from: int, to: int| #[trigger] is_cut(frame@, from, to, command@)
        },
{
    if exists|i: int| 0 <= i < frame@.len() && !text::is_white(#[trigger] frame@[i]) {
        let i = choose|i: int| 0 <= i < frame@.len() && !text::is_white(#[trigger] frame@[i]);
        let range = text::lemma_trimmed_range(frame@);
        assert(range.0 <= i < range.1);
        assert(is_cut(frame@, range.0, range.1, r.1->Run_0@));
    }
}

/// The steps of a console but the receiving of a command: the client is told what came
/// of connecting, and gets each reply as it is. It ends when the client has gone, when
/// the sending of an answer has failed and once the last text was sent.
pub proof fn lemma_handle_rcon(state: RconState, event: RconEvent, r: (RconState, RconAction))
    requires
        call_ensures(rcon::handle_rcon, (state, event), r),
        !(state is Receiving && event matches RconEvent::Client(Incoming::Text(_))),
    ensures
        match (state, event) {
            (RconState::Connecting { addr }, RconEvent::Connected) => r.0 is Greeting && answers(
                r.1,
                "connected to "@ + addr@,
            ),
            (RconState::Connecting { .. }, RconEvent::ConnectFailed(err)) => r.0 is Reporting
                && answers(r.1, "rcon connect failed: "@ + err@),
            (RconState::Connecting { addr }, RconEvent::TimedOut) => r.0 is Reporting && answers(
                r.1,
                "rcon connect timed out ("@ + addr@ + ")"@,
            ),
            (RconState::Greeting, RconEvent::Sent) => r.0 is Receiving && r.1 is Receive,
            (RconState::Greeting, RconEvent::SendFailed) => r.0 is Receiving && r.1 is Receive,
            (RconState::Receiving, RconEvent::Client(Incoming::Other)) => r.0 is Receiving
                && r.1 is Receive,
            (RconState::Running, RconEvent::Replied(reply)) => r.0 is Answering && answers(
                r.1,
                reply@,
            ),
            (RconState::Running, RconEvent::CommandFailed(err)) => r.0 is Answering && answers(
                r.1,
                "rcon error: "@ + err@,
            ),
            (RconState::Running, RconEvent::TimedOut) => r.0 is Answering && answers(
                r.1,
                "rcon command timed out"@,
            ),
            (RconState::Answering, RconEvent::Sent) => r.0 is Receiving && r.1 is Receive,
            _ => r.0 is Done && r.1 is Stop,
        },
{
}

/// A quiet log pings three times a minute; a console that does not answer is given up
/// in half the time of a ping.
pub proof fn lemma_waits()
    ensures
        3 * logs::LOG_WS_HEARTBEAT_SECS == 60,
        2 * rcon::RCON_TIMEOUT_SECS == logs::LOG_WS_HEARTBEAT_SECS,
{
}

}
