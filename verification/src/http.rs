//! What a request is answered with.

use vstd::prelude::*;

verus! {

/// The statuses that the service answers with.
#[derive(Clone, Copy, Debug, PartialEq, Eq, Structural)]
pub enum Status {
    Success,
    BadRequest,
    NotFound,
    Conflict,
    BadGateway,
    ServiceUnavailable,
}

impl Status {
    /// The status's number in HTTP.
    pub open spec fn number(self) -> u16 {
        match self {
            Status::Success => 200,
            Status::BadRequest => 400,
            Status::NotFound => 404,
            Status::Conflict => 409,
            Status::BadGateway => 502,
            Status::ServiceUnavailable => 503,
        }
    }

    pub fn code(&self) -> (r: u16)
        ensures
            r == self.number(),
    {
        match self {
            Status::Success => 200,
            Status::BadRequest => 400,
            Status::NotFound => 404,
            Status::Conflict => 409,
            Status::BadGateway => 502,
            Status::ServiceUnavailable => 503,
        }
    }
}

/// An answer.
pub enum Response<B> {
    /// Status 200 and a body to be sent as JSON.
    Json(B),
    /// A status and a plain text.
    Text(Status, String),
    /// A status and no body.
    Bare(Status),
}

impl<B> Response<B> {
    /// Whether this is the given status with the given text.
    pub open spec fn says(self, status: Status, message: Seq<char>) -> bool {
        self matches Response::Text(s, m) && s == status && m@ == message
    }

    pub fn text(status: Status, message: &str) -> (r: Self)
        ensures
            r.says(status, message@),
    {
        Response::Text(status, message.to_owned())
    }
}

/// The variable `value` of the environment, or `default` where it is not set.
pub fn env_or(value: Option<String>, default: &str) -> (r: String)
    ensures
        r@ == match value {
            Some(v) => v@,
            None => default@,
        },
{
    match value {
        Some(v) => v,
        None => default.to_owned(),
    }
}

/// The banner.
pub fn root() -> (r: Response<()>)
    ensures
        r.says(Status::Success, "red"@),
{
    Response::text(Status::Success, "red")
}

/// The answer to a health probe.
pub fn health() -> (r: Response<()>)
    ensures
        r.says(Status::Success, "ok"@),
{
    Response::text(Status::Success, "ok")
}

// --- Laws ---

/// The numbers of the statuses: success is told from what the client did wrong, and
/// that from what the service could not do.
pub proof fn lemma_codes(status: &Status, code: u16)
    requires
        call_ensures(Status::code, (status,), code),
    ensures
        code == 200 <==> *status is Success,
        code == 400 <==> *status is BadRequest,
        code == 404 <==> *status is NotFound,
        code == 409 <==> *status is Conflict,
        code == 502 <==> *status is BadGateway,
        code == 503 <==> *status is ServiceUnavailable,
{
}

/// A text answer holds its status and its text.
pub proof fn lemma_text<B>(status: Status, message: &str, response: Response<B>)
    requires
        call_ensures(Response::<B>::text, (status, message), response),
    ensures
        response matches Response::Text(s, m) && s == status && m@ == message@,
{
}

/// A variable that is set comes before its default.
pub proof fn lemma_env_or(value: Option<String>, default: &str, r: String)
    requires
        call_ensures(env_or, (value, default), r),
    ensures
        value is Some ==> r@ == value->0@,
        value is None ==> r@ == default@,
{
}

/// The banner and the probe.
pub proof fn lemma_banner(banner: Response<()>, probe: Response<()>)
    requires
        call_ensures(root, (), banner),
        call_ensures(health, (), probe),
    ensures
        banner matches Response::Text(s, m) && s is Success && m@ == "red"@,
        probe matches Response::Text(s, m) && s is Success && m@ == "ok"@,
{
}

}
