//! The log history of a server, from the log store.

use vstd::prelude::*;

use crate::http::{Response, Status};
use crate::mc::boots;
use crate::mc::boots::{Boot, LokiStream};
use crate::mc::names;
use crate::mc::names::McConfig;
use crate::text;
use vstd::string::StringExecFns;

verus! {

/// The most lines that one query asks for.
pub const LOKI_LIMIT_CAP: usize = 5000;

/// An hour in nanoseconds.
pub const HOUR_NS: u64 = 3_600_000_000_000;

/// What a request for the history asks for.
pub struct HistoryParams {
    /// The most boots to return.
    pub boots: usize,
    /// The most lines to keep of each boot.
    pub lines: usize,
    /// How far back to look, in hours.
    pub lookback_hours: u64,
}

pub fn default_boots() -> (r: usize)
    ensures
        r == 10,
{
    10
}

pub fn default_lines() -> (r: usize)
    ensures
        r == 500,
{
    500
}

/// Thirty days.
pub fn default_lookback_hours() -> (r: u64)
    ensures
        r == 30 * 24,
{
    720
}

/// The parameters of a request, with the defaults for those that it leaves out.
pub fn history_params(boots: Option<usize>, lines: Option<usize>, lookback_hours: Option<u64>) -> (r:
    HistoryParams)
    ensures
        r.boots == (if boots is Some {
            boots->0
        } else {
            10
        }),
        r.lines == (if lines is Some {
            lines->0
        } else {
            500
        }),
        r.lookback_hours == (if lookback_hours is Some {
            lookback_hours->0
        } else {
            720
        }),
{
    HistoryParams {
        boots: boots.unwrap_or(default_boots()),
        lines: lines.unwrap_or(default_lines()),
        lookback_hours: lookback_hours.unwrap_or(default_lookback_hours()),
    }
}

/// A query to the log store.
pub struct LokiQuery {
    pub url: String,
    /// The parameters' names and values, in order.
    pub params: Vec<(String, String)>,
}

pub struct LokiQueryView {
    pub url: Seq<char>,
    pub params: Seq<(Seq<char>, Seq<char>)>,
}

impl DeepView for LokiQuery {
    type V = LokiQueryView;

    open spec fn deep_view(&self) -> LokiQueryView {
        LokiQueryView { url: self.url@, params: self.params.deep_view() }
    }
}

/// The start of the time that is asked for: `hours` before now, or the start of time
/// where that is nearer.
pub open spec fn lookback_start(now_ns: u64, hours: u64) -> nat {
    if hours * HOUR_NS <= now_ns {
        (now_ns - hours * HOUR_NS) as nat
    } else {
        0
    }
}

/// The lines that are asked for: those of all boots, but no more than the cap.
pub open spec fn line_limit(boots: usize, lines: usize) -> nat {
    if boots * lines <= LOKI_LIMIT_CAP {
        (boots * lines) as nat
    } else {
        LOKI_LIMIT_CAP as nat
    }
}

/// The expression that selects the log streams of a server's container.
pub open spec fn stream_selector_text(namespace: Seq<char>, name: Seq<char>) -> Seq<char> {
    "{namespace=\""@ + namespace + "\", app=\"mc-"@ + name + "\", container=\""@
        + names::MC_CONTAINER@ + "\"}"@
}

/// The query for the history of the server `name`.
pub open spec fn history_query(
    loki_url: Seq<char>,
    namespace: Seq<char>,
    name: Seq<char>,
    params: HistoryParams,
    now_ns: u64,
) -> LokiQueryView {
    LokiQueryView {
        url: loki_url + "/loki/api/v1/query_range"@,
        params: seq![
            ("query"@, stream_selector_text(namespace, name)),
            ("start"@, text::decimal(lookback_start(now_ns, params.lookback_hours))),
            ("end"@, text::decimal(now_ns as nat)),
            ("direction"@, "backward"@),
            ("limit"@, text::decimal(line_limit(params.boots, params.lines))),
        ],
    }
}

fn start_of(now_ns: u64, hours: u64) -> (r: u64)
    ensures
        r == lookback_start(now_ns, hours),
{
    match hours.checked_mul(HOUR_NS) {
        Some(lookback) => now_ns.saturating_sub(lookback),
        None => 0,
    }
}

fn limit_of(boots: usize, lines: usize) -> (r: usize)
    ensures
        r == line_limit(boots, lines),
{
    match boots.checked_mul(lines) {
        Some(limit) if limit <= LOKI_LIMIT_CAP => limit,
        _ => LOKI_LIMIT_CAP,
    }
}

/// The query for the boots of the server `name`: all of its container's lines of the
/// last `lookback_hours`, the newest first, up to the limit.
pub fn fetch_history(config: &McConfig, name: &str, params: &HistoryParams, now_ns: u64) -> (r:
    LokiQuery)
    ensures
        r.deep_view() == history_query(
            config.loki_url@,
            config.namespace@,
            name@,
            *params,
            now_ns,
        ),
{
    let mut query = String::new();
    query.append("{namespace=\"");
    query.append(config.namespace.as_str());
    query.append("\", app=\"mc-");
    query.append(name);
    query.append("\", container=\"");
    query.append(names::MC_CONTAINER);
    query.append("\"}");
    assert(query@ =~= stream_selector_text(config.namespace@, name@));
    let mut url = config.loki_url.clone();
    url.append("/loki/api/v1/query_range");
    let mut pairs: Vec<(String, String)> = Vec::new();
    pairs.push(("query".to_owned(), query));
    pairs.push(
        ("start".to_owned(), text::numeral(start_of(now_ns, params.lookback_hours))),
    );
    pairs.push(("end".to_owned(), text::numeral(now_ns)));
    pairs.push(("direction".to_owned(), "backward".to_owned()));
    pairs.push(("limit".to_owned(), text::numeral(limit_of(params.boots, params.lines) as u64)));
    let r = LokiQuery { url, params: pairs };
    assert(r.deep_view().params =~= history_query(
        config.loki_url@,
        config.namespace@,
        name@,
        *params,
        now_ns,
    ).params);
    r
}

/// The query that a request for the history of `name` leads to, or the answer to a
/// name that is none.
pub fn history(config: &McConfig, name: &str, params: &HistoryParams, now_ns: u64) -> (r: Result<
    LokiQuery,
    Response<Vec<Boot>>,
>)
    ensures
        match r {
            Ok(query) => names::is_valid_name(name@) && query.deep_view() == history_query(
                config.loki_url@,
                config.namespace@,
                name@,
                *params,
                now_ns,
            ),
            Err(response) => !names::is_valid_name(name@) && response.says(
                Status::BadRequest,
                "invalid server name"@,
            ),
        },
{
    if names::valid_name(name) {
        Ok(fetch_history(config, name, params, now_ns))
    } else {
        Err(names::invalid_name())
    }
}

/// What came of a query to the log store.
pub enum LokiAnswer {
    /// The request failed, or its body could not be read.
    Failed,
    /// It answered with a status, and with streams where the body holds some.
    Answered { status: u16, streams: Option<Vec<LokiStream>> },
}

/// The log store did what it was asked for.
pub open spec fn is_success(status: u16) -> bool {
    200 <= status <= 299
}

/// The answer to a request for the history: the boots, or an upstream error where
/// the log store failed, refused or sent something else.
pub fn history_response(answer: LokiAnswer, params: &HistoryParams) -> (r: Response<Vec<Boot>>)
    ensures
        match answer {
            LokiAnswer::Answered { status, streams: Some(streams) } if is_success(status) => r matches
                Response::Json(boots) && boots.deep_view() == boots::history_of(
                streams.deep_view(),
                params.boots as nat,
                params.lines as nat,
            ),
            _ => r.says(Status::BadGateway, "upstream error"@),
        },
{
    match answer {
        LokiAnswer::Answered { status, streams: Some(streams) } if 200 <= status && status
            <= 299 => Response::Json(boots::boots_from_loki(streams, params.boots, params.lines)),
        _ => names::bad_gateway(),
    }
}

// --- Laws ---

/// However much is asked for, a query asks for no more lines than the cap, and never
/// for a time after now.
pub proof fn lemma_query_bounded(boots: usize, lines: usize, now_ns: u64, hours: u64)
    ensures
        line_limit(boots, lines) <= LOKI_LIMIT_CAP,
        lookback_start(now_ns, hours) <= now_ns,
{
    assert(hours * HOUR_NS >= 0) by (nonlinear_arith);
}

}
