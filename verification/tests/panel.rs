//! The control panel: names, the server list, history queries, logs and consoles.

use red::http::{env_or, health, root, Response};
use red::mc::boots::LokiStream;
use red::mc::history::{
    default_boots, default_lines, default_lookback_hours, fetch_history, history, history_params,
    history_response, HistoryParams, LokiAnswer,
};
use red::mc::logs::{logs_ws, stream_logs, LogAction, LogEvent, LogState, LOG_TAIL_LINES, LOG_WS_HEARTBEAT_SECS};
use red::mc::names::{
    bad_gateway, handle_servers, invalid_name, mc_config, rcon_address, selector, unavailable,
    valid_name, Listing, McConfig, MC_CONTAINER,
};
use red::mc::rcon::{handle_rcon, rcon_ws, RconAction, RconEvent, RconState, RCON_TIMEOUT_SECS};
use red::mc::servers::{list_servers, DeploymentRow, PodRow};
use red::mc::socket::Incoming;

fn text<B>(response: Response<B>) -> (u16, String) {
    match response {
        Response::Text(status, message) => (status.code(), message),
        _ => (0, String::new()),
    }
}

fn said(code: u16, message: &str) -> (u16, String) {
    (code, message.to_string())
}

fn config() -> McConfig {
    mc_config(None, None, None, None)
}

#[test]
fn banner_and_health() {
    assert_eq!(text(root()), said(200, "red"));
    assert_eq!(text(health()), said(200, "ok"));
}

#[test]
fn names_of_servers() {
    assert!(valid_name("bolty"));
    assert!(valid_name("A-9"));
    assert!(valid_name(&"x".repeat(63)));
    assert!(!valid_name(&"x".repeat(64)));
    for name in ["", "a.b", "a b", "a/b", "a_b", "é", "a\n", "a,b", "a=b"] {
        assert!(!valid_name(name));
    }
    assert_eq!(selector("bolty"), "app=mc-bolty");
    assert_eq!(rcon_address("bolty", "mc", "25575"), "mc-bolty-rcon.mc.svc.cluster.local:25575");
    assert_eq!(MC_CONTAINER, "minecraft-server");
}

#[test]
fn configuration() {
    let c = config();
    assert_eq!(c.namespace, "mc");
    assert_eq!(c.rcon_port, "25575");
    assert_eq!(c.rcon_password, "minecraft");
    assert_eq!(c.loki_url, "http://loki.monitoring.svc.cluster.local:3100");
    let set = mc_config(
        Some("ns".to_string()),
        Some("1".to_string()),
        Some("word".to_string()),
        Some("http://l".to_string()),
    );
    assert_eq!(
        (set.namespace, set.rcon_port, set.rcon_password, set.loki_url),
        ("ns".to_string(), "1".to_string(), "word".to_string(), "http://l".to_string())
    );
    assert_eq!(env_or(None, "x"), "x");
    assert_eq!(env_or(Some(String::new()), "x"), "");
}

#[test]
fn refusals() {
    assert_eq!(text(unavailable::<()>()), said(503, "k8s client unavailable"));
    assert_eq!(text(bad_gateway::<()>()), said(502, "upstream error"));
    assert_eq!(text(invalid_name::<()>()), said(400, "invalid server name"));
}

fn deployment(name: Option<&str>, replicas: Option<i32>, ready: Option<i32>) -> DeploymentRow {
    DeploymentRow { name: name.map(|n| n.to_string()), replicas, ready }
}

fn pod(app: Option<&str>, name: Option<&str>, phase: Option<&str>) -> PodRow {
    let mut labels = vec![("tier".to_string(), "mc-b".to_string())];
    if let Some(app) = app {
        labels.push(("app".to_string(), app.to_string()));
    }
    PodRow {
        labels,
        name: name.map(|n| n.to_string()),
        phase: phase.map(|p| p.to_string()),
    }
}

#[test]
fn the_server_list() {
    let deployments = vec![
        deployment(Some("mc-b"), Some(1), Some(1)),
        deployment(None, Some(1), None),
        deployment(Some("other"), Some(1), None),
        deployment(Some("mc-a"), None, None),
        deployment(Some("mc-"), Some(-1), Some(2)),
    ];
    let pods = vec![
        pod(Some("mc-b"), Some("b-1"), Some("Pending")),
        pod(Some("mc-b"), Some("b-2"), None),
        pod(Some("mc-b"), None, Some("Running")),
        pod(None, Some("x"), None),
    ];
    let rows = list_servers(&deployments, &pods);
    let names: Vec<&str> = rows.iter().map(|r| r.name.as_str()).collect();
    assert_eq!(names, vec!["", "a", "b"]);
    assert!(!rows[0].enabled && rows[0].replicas == -1 && rows[0].ready == 2);
    assert!(!rows[1].enabled && rows[1].replicas == 0 && rows[1].ready == 0);
    assert!(rows[1].pod.is_none() && rows[1].phase.is_none());
    assert!(rows[2].enabled);
    // No pod with a name is running: the last of the list stands for the server.
    assert_eq!(rows[2].pod.as_deref(), Some("b-2"));
    assert_eq!(rows[2].phase, None);

    assert_eq!(text(handle_servers(Listing::NoClient)), said(503, "k8s client unavailable"));
    assert_eq!(text(handle_servers(Listing::Failed)), said(502, "upstream error"));
    match handle_servers(Listing::Listed(deployments, pods)) {
        Response::Json(rows) => assert_eq!(rows.len(), 3),
        _ => panic!(),
    }
}

fn shown(pods: Vec<PodRow>) -> (Option<String>, Option<String>) {
    let mut rows = list_servers(&vec![deployment(Some("mc-a"), Some(1), Some(1))], &pods);
    assert_eq!(rows.len(), 1);
    let row = rows.remove(0);
    assert_eq!(row.name, "a");
    (row.pod, row.phase)
}

fn pair(pod: &str, phase: &str) -> (Option<String>, Option<String>) {
    (Some(pod.to_string()), Some(phase.to_string()))
}

#[test]
fn a_server_is_joined_with_its_running_pod() {
    let running = |name: &str| pod(Some("mc-a"), Some(name), Some("Running"));
    let failed = |name: &str| pod(Some("mc-a"), Some(name), Some("Failed"));
    assert_eq!(shown(vec![running("mc-a-1"), failed("mc-a-2")]), pair("mc-a-1", "Running"));
    assert_eq!(shown(vec![failed("mc-a-2"), running("mc-a-1")]), pair("mc-a-1", "Running"));
    assert_eq!(shown(vec![running("1"), running("2"), failed("3")]), pair("2", "Running"));
    // A running pod of another server, or one without a name, is not its own.
    let others = vec![
        failed("x"),
        pod(Some("mc-b"), Some("b"), Some("Running")),
        pod(None, Some("c"), Some("Running")),
        pod(Some("mc-a"), None, Some("Running")),
    ];
    assert_eq!(shown(others), pair("x", "Failed"));
    assert_eq!(
        shown(vec![failed("x"), pod(Some("mc-a"), Some("y"), Some("Pending"))]),
        pair("y", "Pending")
    );
    assert_eq!(shown(vec![pod(Some("mc-a"), Some("z"), Some("running"))]), pair("z", "running"));
    assert_eq!(shown(vec![]), (None, None));
}

#[test]
fn history_defaults() {
    assert_eq!(default_boots(), 10);
    assert_eq!(default_lines(), 500);
    assert_eq!(default_lookback_hours(), 720);
    let p = history_params(None, Some(7), None);
    assert_eq!((p.boots, p.lines, p.lookback_hours), (10, 7, 720));
}

#[test]
fn the_history_query() {
    let params = HistoryParams { boots: 2, lines: 30, lookback_hours: 1 };
    let q = fetch_history(&config(), "bolty", &params, 3_600_000_000_005);
    assert_eq!(q.url, "http://loki.monitoring.svc.cluster.local:3100/loki/api/v1/query_range");
    let expected = vec![
        ("query", "{namespace=\"mc\", app=\"mc-bolty\", container=\"minecraft-server\"}"),
        ("start", "5"),
        ("end", "3600000000005"),
        ("direction", "backward"),
        ("limit", "60"),
    ];
    let expected: Vec<(String, String)> =
        expected.iter().map(|(a, b)| (a.to_string(), b.to_string())).collect();
    assert_eq!(q.params, expected);

    let params = HistoryParams { boots: usize::MAX, lines: 2, lookback_hours: u64::MAX };
    let q = fetch_history(&config(), "bolty", &params, 5);
    assert_eq!(q.params[1].1, "0");
    assert_eq!(q.params[4].1, "5000");
    let params = HistoryParams { boots: 10, lines: 500, lookback_hours: 2 };
    let q = fetch_history(&config(), "bolty", &params, 3_600_000_000_000);
    assert_eq!((q.params[1].1.as_str(), q.params[4].1.as_str()), ("0", "5000"));

    assert!(history(&config(), "bolty", &params, 0).is_ok());
    let refused = history(&config(), "bol.ty", &params, 0);
    assert_eq!(refused.err().map(text), Some(said(400, "invalid server name")));
}

#[test]
fn the_history_answer() {
    let params = HistoryParams { boots: 10, lines: 500, lookback_hours: 1 };
    let streams = || {
        Some(vec![LokiStream {
            pod: "p".to_string(),
            filename: "0.log".to_string(),
            values: vec![vec![Some("1".to_string()), Some("a".to_string())]],
        }])
    };
    match history_response(LokiAnswer::Answered { status: 200, streams: streams() }, &params) {
        Response::Json(boots) => assert_eq!(boots[0].id, "p#0"),
        _ => panic!(),
    }
    let refused = |answer: LokiAnswer| text(history_response(answer, &params));
    assert_eq!(refused(LokiAnswer::Failed), said(502, "upstream error"));
    for status in [199, 300, 404, 500] {
        assert_eq!(
            refused(LokiAnswer::Answered { status, streams: streams() }),
            said(502, "upstream error")
        );
    }
    assert_eq!(
        refused(LokiAnswer::Answered { status: 200, streams: None }),
        said(502, "upstream error")
    );
}

#[test]
fn a_live_log() {
    assert_eq!(LOG_WS_HEARTBEAT_SECS, 20);
    assert_eq!(LOG_TAIL_LINES, 500);
    assert_eq!(logs_ws("a.b", true).err().map(text), Some(said(400, "invalid server name")));
    assert_eq!(logs_ws("a", false).err().map(text), Some(said(503, "k8s client unavailable")));
    let (state, action) = match logs_ws("bolty", true) {
        Ok(first) => first,
        Err(_) => panic!(),
    };
    assert!(matches!(action, LogAction::ListPods { selector } if selector == "app=mc-bolty"));
    let pods = vec![None, Some("p1".to_string()), Some("p2".to_string())];
    let (state, action) = stream_logs(state, LogEvent::PodsListed(pods));
    assert!(matches!(action, LogAction::OpenLog { pod, container, tail_lines }
        if pod == "p1" && container == "minecraft-server" && tail_lines == 500));
    let (state, action) = stream_logs(state, LogEvent::Opened);
    assert!(matches!(action, LogAction::Wait));
    let (state, action) = stream_logs(state, LogEvent::Line("hello".to_string()));
    assert!(matches!(action, LogAction::Send(line) if line == "hello"));
    let (state, action) = stream_logs(state, LogEvent::Sent);
    assert!(matches!(action, LogAction::Wait));
    let (state, action) = stream_logs(state, LogEvent::Heartbeat);
    assert!(matches!(action, LogAction::Ping));
    let (state, _) = stream_logs(state, LogEvent::Sent);
    let (state, action) = stream_logs(state, LogEvent::Client(Incoming::Text("x".to_string())));
    assert!(matches!(action, LogAction::Wait));
    let (state, action) = stream_logs(state, LogEvent::Client(Incoming::Close));
    assert!(matches!((state, action), (LogState::Done, LogAction::Stop)));
}

#[test]
fn a_live_log_that_fails() {
    let listing = || LogState::Listing { name: "bolty".to_string() };
    let sends = |step: (LogState, LogAction), message: &str| {
        matches!(step, (LogState::Reporting, LogAction::Send(m)) if m == message)
    };
    assert!(sends(stream_logs(listing(), LogEvent::PodsListed(vec![None])), "no running pod for bolty"));
    assert!(sends(stream_logs(listing(), LogEvent::ListFailed("e".to_string())), "error: e"));
    assert!(sends(stream_logs(LogState::Opening, LogEvent::OpenFailed("e".to_string())), "error: e"));
    assert!(sends(stream_logs(LogState::Waiting, LogEvent::StreamFailed("e".to_string())), "stream error: e"));
    for event in [LogEvent::StreamEnded, LogEvent::Client(Incoming::Ended), LogEvent::Client(Incoming::Failed)] {
        assert!(matches!(stream_logs(LogState::Waiting, event), (LogState::Done, LogAction::Stop)));
    }
    assert!(matches!(
        stream_logs(LogState::Sending, LogEvent::SendFailed),
        (LogState::Done, LogAction::Stop)
    ));
    assert!(matches!(
        stream_logs(LogState::Reporting, LogEvent::Sent),
        (LogState::Done, LogAction::Stop)
    ));
}

#[test]
fn a_console() {
    assert_eq!(RCON_TIMEOUT_SECS, 10);
    assert_eq!(rcon_ws("", true, &config()).err().map(text), Some(said(400, "invalid server name")));
    let unavailable = rcon_ws("bolty", false, &config());
    assert_eq!(unavailable.err().map(text), Some(said(503, "k8s client unavailable")));
    let (state, action) = match rcon_ws("bolty", true, &config()) {
        Ok(first) => first,
        Err(_) => panic!(),
    };
    let address = "mc-bolty-rcon.mc.svc.cluster.local:25575";
    assert!(matches!(action, RconAction::Connect { addr, password }
        if addr == address && password == "minecraft"));
    let (state, action) = handle_rcon(state, RconEvent::Connected);
    assert!(matches!(action, RconAction::Send(m) if m == format!("connected to {address}")));
    let (state, action) = handle_rcon(state, RconEvent::SendFailed);
    assert!(matches!(action, RconAction::Receive));
    let frame = |text: &str| RconEvent::Client(Incoming::Text(text.to_string()));
    let (state, action) = handle_rcon(state, frame("  \n"));
    assert!(matches!(action, RconAction::Receive));
    let (state, action) = handle_rcon(state, RconEvent::Client(Incoming::Other));
    assert!(matches!(action, RconAction::Receive));
    let (state, action) = handle_rcon(state, frame(" say hi \u{2003}"));
    assert!(matches!(action, RconAction::Run(c) if c == "say hi"));
    let (state, action) = handle_rcon(state, RconEvent::Replied(String::new()));
    assert!(matches!(action, RconAction::Send(m) if m.is_empty()));
    let (state, action) = handle_rcon(state, RconEvent::Sent);
    assert!(matches!(action, RconAction::Receive));
    let (state, action) = handle_rcon(state, RconEvent::Client(Incoming::Close));
    assert!(matches!((state, action), (RconState::Done, RconAction::Stop)));
}

#[test]
fn a_console_that_fails() {
    let connecting = || RconState::Connecting { addr: "a:1".to_string() };
    let sends = |action: RconAction, message: &str| matches!(action, RconAction::Send(m) if m == message);
    let (state, action) = handle_rcon(connecting(), RconEvent::ConnectFailed("e".to_string()));
    assert!(sends(action, "rcon connect failed: e"));
    assert!(matches!(handle_rcon(state, RconEvent::Sent), (RconState::Done, RconAction::Stop)));
    let (_, action) = handle_rcon(connecting(), RconEvent::TimedOut);
    assert!(sends(action, "rcon connect timed out (a:1)"));
    let (_, action) = handle_rcon(RconState::Running, RconEvent::CommandFailed("e".to_string()));
    assert!(sends(action, "rcon error: e"));
    let (state, action) = handle_rcon(RconState::Running, RconEvent::TimedOut);
    assert!(sends(action, "rcon command timed out"));
    assert!(matches!(handle_rcon(state, RconEvent::SendFailed), (RconState::Done, RconAction::Stop)));
}
