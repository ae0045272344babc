//! The console of a server over a web socket, as steps: each step takes what the last
//! action led to and says what to do next.

use vstd::prelude::*;

use crate::http::{Response, Status};
use crate::mc::names;
use crate::mc::names::McConfig;
use crate::mc::socket::Incoming;
use crate::text;
use vstd::string::StringExecFns;

verus! {

/// Connecting, and each command, may take this many seconds.
pub const RCON_TIMEOUT_SECS: u64 = 10;

/// Where a console is.
pub enum RconState {
    /// Connecting to the server at `addr`.
    Connecting { addr: String },
    /// The greeting is being sent.
    Greeting,
    /// The last text is being sent.
    Reporting,
    /// Waiting for the client.
    Receiving,
    /// A command is running.
    Running,
    /// A command's answer is being sent.
    Answering,
    Done,
}

/// What the last action led to. Errors come as their texts.
pub enum RconEvent {
    Connected,
    ConnectFailed(String),
    TimedOut,
    Sent,
    SendFailed,
    Client(Incoming),
    Replied(String),
    CommandFailed(String),
}

/// What to do next.
pub enum RconAction {
    /// Connect to a Minecraft server's console.
    Connect { addr: String, password: String },
    Send(String),
    Receive,
    Run(String),
    Stop,
}

impl RconAction {
    /// Whether this sends the given text.
    pub open spec fn sends(self, message: Seq<char>) -> bool {
        self matches RconAction::Send(m) && m@ == message
    }

    /// Whether this runs the given command.
    pub open spec fn executes(self, command: Seq<char>) -> bool {
        self matches RconAction::Run(c) && c@ == command
    }
}

/// The step from `state` on `event` leads to `next` and `action`.
pub open spec fn rcon_step_to(
    state: RconState,
    event: RconEvent,
    next: RconState,
    action: RconAction,
) -> bool {
    match (state, event) {
        (RconState::Connecting { addr }, RconEvent::Connected) => next is Greeting && action.sends(
            "connected to "@ + addr@,
        ),
        (RconState::Connecting { .. }, RconEvent::ConnectFailed(err)) => next is Reporting
            && action.sends("rcon connect failed: "@ + err@),
        (RconState::Connecting { addr }, RconEvent::TimedOut) => next is Reporting && action.sends(
            "rcon connect timed out ("@ + addr@ + ")"@,
        ),
        // Whether the greeting arrived makes no difference.
        (RconState::Greeting, RconEvent::Sent | RconEvent::SendFailed) => next is Receiving
            && action is Receive,
        (RconState::Receiving, RconEvent::Client(Incoming::Text(frame))) => if text::is_blank(
            frame@,
        ) {
            next is Receiving && action is Receive
        } else {
            next is Running && action.executes(text::trimmed(frame@))
        },
        (RconState::Receiving, RconEvent::Client(Incoming::Other)) => next is Receiving
            && action is Receive,
        (RconState::Running, RconEvent::Replied(reply)) => next is Answering && action.sends(
            reply@,
        ),
        (RconState::Running, RconEvent::CommandFailed(err)) => next is Answering && action.sends(
            "rcon error: "@ + err@,
        ),
        (RconState::Running, RconEvent::TimedOut) => next is Answering && action.sends(
            "rcon command timed out"@,
        ),
        (RconState::Answering, RconEvent::Sent) => next is Receiving && action is Receive,
        // Everything else ends it: the client has gone, a send has failed, the last text
        // has been sent, or the event does not belong to the state.
        _ => next is Done && action is Stop,
    }
}

fn told(prefix: &str, message: &str, suffix: &str) -> (r: RconAction)
    ensures
        r.sends(prefix@ + message@ + suffix@),
{
    let mut m = String::new();
    m.append(prefix);
    m.append(message);
    m.append(suffix);
    assert(m@ =~= prefix@ + message@ + suffix@);
    RconAction::Send(m)
}

fn reported(prefix: &str, message: &str) -> (r: RconAction)
    ensures
        r.sends(prefix@ + message@),
{
    let r = told(prefix, message, "");
    proof {
        reveal_strlit("");
        assert(prefix@ + message@ + ""@ =~= prefix@ + message@);
    }
    r
}

/// Whether a request for the console of `name` is let through; if so, with the first
/// action. Without a cluster client it is not.
pub fn rcon_ws(name: &str, has_client: bool, config: &McConfig) -> (r: Result<
    (RconState, RconAction),
    Response<()>,
>)
    ensures
        match r {
            Ok((state, action)) => {
                let address = names::rcon_address_text(
                    name@,
                    config.namespace@,
                    config.rcon_port@,
                );
                &&& names::is_valid_name(name@)
                &&& has_client
                &&& state matches RconState::Connecting { addr }
                &&& addr@ == address
                &&& action matches RconAction::Connect { addr: target, password }
                &&& target@ == address
                &&& password@ == config.rcon_password@
            },
            Err(response) => if !names::is_valid_name(name@) {
                response.says(Status::BadRequest, "invalid server name"@)
            } else {
                !has_client && response.says(
                    Status::ServiceUnavailable,
                    "k8s client unavailable"@,
                )
            },
        },
{
    if !names::valid_name(name) {
        return Err(names::invalid_name());
    }
    if !has_client {
        return Err(names::unavailable());
    }
    let addr = names::rcon_address(name, config.namespace.as_str(), config.rcon_port.as_str());
    Ok(
        (
            RconState::Connecting { addr: addr.clone() },
            RconAction::Connect { addr, password: config.rcon_password.clone() },
        ),
    )
}

/// The next step of a console.
pub fn handle_rcon(state: RconState, event: RconEvent) -> (r: (RconState, RconAction))
    ensures
        rcon_step_to(state, event, r.0, r.1),
{
    match (state, event) {
        (RconState::Connecting { addr }, RconEvent::Connected) => (
            RconState::Greeting,
            reported("connected to ", addr.as_str()),
        ),
        (RconState::Connecting { .. }, RconEvent::ConnectFailed(err)) => (
            RconState::Reporting,
            reported("rcon connect failed: ", err.as_str()),
        ),
        (RconState::Connecting { addr }, RconEvent::TimedOut) => (
            RconState::Reporting,
            told("rcon connect timed out (", addr.as_str(), ")"),
        ),
        (RconState::Greeting, RconEvent::Sent | RconEvent::SendFailed) => (
            RconState::Receiving,
            RconAction::Receive,
        ),
        (RconState::Receiving, RconEvent::Client(Incoming::Text(frame))) => {
            let command = text::trim(frame.as_str());
            proof {
                text::lemma_trimmed_empty(frame@);
            }
            if command.as_str().is_empty() {
                (RconState::Receiving, RconAction::Receive)
            } else {
                (RconState::Running, RconAction::Run(command))
            }
        },
        (RconState::Receiving, RconEvent::Client(Incoming::Other)) => (
            RconState::Receiving,
            RconAction::Receive,
        ),
        (RconState::Running, RconEvent::Replied(reply)) => (
            RconState::Answering,
            RconAction::Send(reply),
        ),
        (RconState::Running, RconEvent::CommandFailed(err)) => (
            RconState::Answering,
            reported("rcon error: ", err.as_str()),
        ),
        (RconState::Running, RconEvent::TimedOut) => (
            RconState::Answering,
            RconAction::Send("rcon command timed out".to_owned()),
        ),
        (RconState::Answering, RconEvent::Sent) => (RconState::Receiving, RconAction::Receive),
        _ => (RconState::Done, RconAction::Stop),
    }
}

// --- Laws ---

/// A console that is done stays done, and one that sends its last text does nothing
/// after it.
pub proof fn lemma_rcon_ends(
    state: RconState,
    event: RconEvent,
    next: RconState,
    action: RconAction,
)
    requires
        state is Done || state is Reporting,
        rcon_step_to(state, event, next, action),
    ensures
        next is Done,
        action is Stop,
{
}

/// A command that runs is what the client sent, without the white space at its ends,
/// and never empty.
pub proof fn lemma_rcon_runs_what_was_sent(
    state: RconState,
    event: RconEvent,
    next: RconState,
    command: String,
)
    requires
        rcon_step_to(state, event, next, RconAction::Run(command)),
    ensures
        state is Receiving,
        next is Running,
        command@.len() > 0,
        event matches RconEvent::Client(Incoming::Text(frame)) && command@ == text::trimmed(frame@),
{
    if let RconEvent::Client(Incoming::Text(frame)) = event {
        text::lemma_trimmed_empty(frame@);
    }
}

/// Every command is answered before the next one is received: whatever comes of it, a
/// running command leads to a text for the client, and to receiving again once that
/// text was sent.
pub proof fn lemma_rcon_answers(
    event: RconEvent,
    answering: RconState,
    answer: RconAction,
    next: RconState,
    action: RconAction,
)
    requires
        event is Replied || event is CommandFailed || event is TimedOut,
        rcon_step_to(RconState::Running, event, answering, answer),
        rcon_step_to(answering, RconEvent::Sent, next, action),
    ensures
        answer is Send,
        next is Receiving,
        action is Receive,
{
}

}
