//! The live log of a server over a web socket, as steps: each step takes what the last
//! action led to and says what to do next.

use vstd::prelude::*;

use crate::http::{Response, Status};
use crate::mc::names;
use crate::mc::socket::Incoming;
use vstd::string::StringExecFns;

verus! {

/// A quiet log sends a ping after this many seconds, so that no proxy closes it.
pub const LOG_WS_HEARTBEAT_SECS: u64 = 20;

/// The lines of the past that a live log begins with.
pub const LOG_TAIL_LINES: i64 = 500;

/// Where a live log is.
pub enum LogState {
    /// The pods of the server `name` are being listed.
    Listing { name: String },
    /// The log of a pod is being opened.
    Opening,
    /// The last text is being sent.
    Reporting,
    /// Waiting for a line, for the client or for the heartbeat.
    Waiting,
    /// A line or a ping is being sent.
    Sending,
    Done,
}

/// What the last action led to. Errors come as their texts.
pub enum LogEvent {
    /// The names of the pods that were found; a pod may have none.
    PodsListed(Vec<Option<String>>),
    ListFailed(String),
    Opened,
    OpenFailed(String),
    Sent,
    SendFailed,
    Line(String),
    StreamFailed(String),
    StreamEnded,
    Client(Incoming),
    Heartbeat,
}

/// What to do next.
pub enum LogAction {
    /// List the pods that the selector selects.
    ListPods { selector: String },
    /// Open the log of a pod's container and follow it.
    OpenLog { pod: String, container: String, tail_lines: i64 },
    Send(String),
    Ping,
    /// Wait for a line, for the client or for the heartbeat, whichever comes first.
    Wait,
    Stop,
}

impl LogAction {
    /// Whether this sends the given text.
    pub open spec fn sends(self, message: Seq<char>) -> bool {
        self matches LogAction::Send(m) && m@ == message
    }
}

/// The first pod that has a name.
pub open spec fn first_named(pods: Seq<Option<String>>) -> Option<String>
    decreases pods.len(),
{
    if pods.len() == 0 {
        None
    } else if pods[0] is Some {
        pods[0]
    } else {
        first_named(pods.drop_first())
    }
}

/// The step from `state` on `event` leads to `next` and `action`.
pub open spec fn log_step_to(
    state: LogState,
    event: LogEvent,
    next: LogState,
    action: LogAction,
) -> bool {
    match (state, event) {
        (LogState::Listing { name }, LogEvent::PodsListed(pods)) => match first_named(pods@) {
            Some(pod) => {
                &&& next is Opening
                &&& action matches LogAction::OpenLog { pod: opened, container, tail_lines }
                &&& opened == pod
                &&& container@ == names::MC_CONTAINER@
                &&& tail_lines == LOG_TAIL_LINES
            },
            None => next is Reporting && action.sends("no running pod for "@ + name@),
        },
        (LogState::Listing { .. }, LogEvent::ListFailed(err)) => next is Reporting && action.sends(
            "error: "@ + err@,
        ),
        (LogState::Opening, LogEvent::Opened) => next is Waiting && action is Wait,
        (LogState::Opening, LogEvent::OpenFailed(err)) => next is Reporting && action.sends(
            "error: "@ + err@,
        ),
        (LogState::Waiting, LogEvent::Line(line)) => next is Sending && action.sends(line@),
        (LogState::Waiting, LogEvent::StreamFailed(err)) => next is Reporting && action.sends(
            "stream error: "@ + err@,
        ),
        (LogState::Waiting, LogEvent::Client(incoming)) => if incoming.is_goodbye() {
            next is Done && action is Stop
        } else {
            next is Waiting && action is Wait
        },
        (LogState::Waiting, LogEvent::Heartbeat) => next is Sending && action is Ping,
        (LogState::Sending, LogEvent::Sent) => next is Waiting && action is Wait,
        // Everything else ends it: the stream has ended, a send has failed, the last
        // text has been sent, or the event does not belong to the state.
        _ => next is Done && action is Stop,
    }
}

fn report(prefix: &str, message: &str) -> (r: (LogState, LogAction))
    ensures
        r.0 is Reporting,
        r.1.sends(prefix@ + message@),
{
    let mut m = String::new();
    m.append(prefix);
    m.append(message);
    assert(m@ =~= prefix@ + message@);
    (LogState::Reporting, LogAction::Send(m))
}

fn named_pod(pods: &Vec<Option<String>>) -> (r: Option<String>)
    ensures
        r == first_named(pods@),
{
    let mut i: usize = 0;
    assert(pods@.skip(0) =~= pods@);
    while i < pods.len()
        invariant
            i <= pods@.len(),
            first_named(pods@) == first_named(pods@.skip(i as int)),
        decreases pods@.len() - i,
    {
        assert(pods@.skip(i as int)[0] == pods@[i as int]);
        assert(pods@.skip(i as int).drop_first() =~= pods@.skip(i + 1));
        if let Some(name) = &pods[i] {
            return Some(name.clone());
        }
        i = i + 1;
    }
    None
}

/// Whether a request for the live log of `name` is let through; if so, with the first
/// action. Without a cluster client it is not.
pub fn logs_ws(name: &str, has_client: bool) -> (r: Result<
    (LogState, LogAction),
    Response<()>,
>)
    ensures
        match r {
            Ok((state, action)) => {
                &&& names::is_valid_name(name@)
                &&& has_client
                &&& state matches LogState::Listing { name: listed }
                &&& listed@ == name@
                &&& action matches LogAction::ListPods { selector }
                &&& selector@ == names::selector_text(name@)
            },
            Err(response) => if !names::is_valid_name(name@) {
                response.says(Status::BadRequest, "invalid server name"@)
            } else {
                !has_client && response.says(
                    Status::ServiceUnavailable,
                    "k8s client unavailable"@,
                )
            },
        },
{
    if !names::valid_name(name) {
        return Err(names::invalid_name());
    }
    if !has_client {
        return Err(names::unavailable());
    }
    Ok(
        (
            LogState::Listing { name: name.to_owned() },
            LogAction::ListPods { selector: names::selector(name) },
        ),
    )
}

/// The next step of a live log.
pub fn stream_logs(state: LogState, event: LogEvent) -> (r: (LogState, LogAction))
    ensures
        log_step_to(state, event, r.0, r.1),
{
    match (state, event) {
        (LogState::Listing { name }, LogEvent::PodsListed(pods)) => match named_pod(&pods) {
            Some(pod) => (
                LogState::Opening,
                LogAction::OpenLog {
                    pod,
                    container: names::MC_CONTAINER.to_owned(),
                    tail_lines: LOG_TAIL_LINES,
                },
            ),
            None => report("no running pod for ", name.as_str()),
        },
        (LogState::Listing { .. }, LogEvent::ListFailed(err)) => report("error: ", err.as_str()),
        (LogState::Opening, LogEvent::Opened) => (LogState::Waiting, LogAction::Wait),
        (LogState::Opening, LogEvent::OpenFailed(err)) => report("error: ", err.as_str()),
        (LogState::Waiting, LogEvent::Line(line)) => (LogState::Sending, LogAction::Send(line)),
        (LogState::Waiting, LogEvent::StreamFailed(err)) => report(
            "stream error: ",
            err.as_str(),
        ),
        (LogState::Waiting, LogEvent::Client(incoming)) => if incoming.goodbye() {
            (LogState::Done, LogAction::Stop)
        } else {
            (LogState::Waiting, LogAction::Wait)
        },
        (LogState::Waiting, LogEvent::Heartbeat) => (LogState::Sending, LogAction::Ping),
        (LogState::Sending, LogEvent::Sent) => (LogState::Waiting, LogAction::Wait),
        _ => (LogState::Done, LogAction::Stop),
    }
}

// --- Laws ---

/// A live log that is done stays done, and one that sends its last text does nothing
/// after it.
pub proof fn lemma_log_ends(
    state: LogState,
    event: LogEvent,
    next: LogState,
    action: LogAction,
)
    requires
        state is Done || state is Reporting,
        log_step_to(state, event, next, action),
    ensures
        next is Done,
        action is Stop,
{
}

/// A line of the log reaches the client as it is, and after it was sent the log goes on
/// waiting for the next.
pub proof fn lemma_log_passes_lines(
    line: String,
    sending: LogState,
    send: LogAction,
    waiting: LogState,
    wait: LogAction,
)
    requires
        log_step_to(LogState::Waiting, LogEvent::Line(line), sending, send),
        log_step_to(sending, LogEvent::Sent, waiting, wait),
    ensures
        send.sends(line@),
        waiting is Waiting,
        wait is Wait,
{
}

/// The log of a pod is opened once only, before the first line is waited for: no step
/// from a waiting or sending log lists pods or opens a log.
pub proof fn lemma_log_opens_once(
    state: LogState,
    event: LogEvent,
    next: LogState,
    action: LogAction,
)
    requires
        state is Waiting || state is Sending,
        log_step_to(state, event, next, action),
    ensures
        !(action is ListPods),
        !(action is OpenLog),
        !(next is Listing),
        !(next is Opening),
{
}

}
