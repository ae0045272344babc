//! Pages: when a track is paged, what the page says and how it is sent.

use vstd::prelude::*;

use crate::systems::model::Computed;
use crate::systems::records::{Settings, Track};
use crate::systems::scalar;
use crate::systems::scalar::Scalar;
use crate::text;
use vstd::string::StringExecFns;

verus! {

/// A page is given up after this many seconds.
pub const NTFY_TIMEOUT_SECS: u64 = 10;

/// A page.
pub struct Alert {
    /// Where it goes.
    pub topic_url: String,
    pub title: String,
    pub body: String,
    pub priority: String,
    pub tags: String,
    /// What a click on it opens.
    pub click: String,
}

// --- Whether and what to page ---

/// `r` is whether a track is paged: its deficit is above its threshold, or an
/// occurrence was skipped without a reason.
pub open spec fn is_paging<S: Scalar>(c: Computed<S>, r: bool) -> bool {
    exists|over: bool| #[trigger]
        scalar::is_excess(c.deficit_load, c.alert_threshold, over) && r == (over
            || c.adherence.unlogged_skips > 0)
}

/// The text of a page for a deficit of so many sessions.
pub open spec fn deficit_text(name: Seq<char>, figure: Seq<char>) -> Seq<char> {
    name + ": deficit ~"@ + figure + " sessions below floor — schedule one and clear it."@
}

/// The text of a page for so many skips without a reason.
pub open spec fn skips_text(name: Seq<char>, count: nat) -> Seq<char> {
    name + ": "@ + text::decimal(count) + " unlogged skip(s) — log a reason or do it."@
}

/// `body` is the text of a page: the deficit where it is above the threshold, the skips
/// otherwise.
pub open spec fn is_alert_text<S: Scalar>(
    name: Seq<char>,
    c: Computed<S>,
    body: Seq<char>,
) -> bool {
    exists|over: bool| #[trigger]
        scalar::is_excess(c.deficit_load, c.alert_threshold, over) && if over {
            exists|figure: String| #[trigger]
                scalar::is_tenths(c.deficit_sessions, figure) && body == deficit_text(name, figure@)
        } else {
            body == skips_text(name, c.adherence.unlogged_skips as nat)
        }
}

pub open spec fn is_alert<S: Scalar>(
    settings: Settings,
    track: Track<S>,
    c: Computed<S>,
    alert: Alert,
) -> bool {
    &&& alert.topic_url == settings.ntfy_url
    &&& alert.title == track.name
    &&& is_alert_text(track.name@, c, alert.body@)
    &&& alert.priority@ == "high"@
    &&& alert.tags@ == "warning"@
    &&& alert.click == settings.dashboard_url
}

/// Whether a track is paged.
pub fn should_page<S: Scalar>(c: &Computed<S>) -> (r: bool)
    ensures
        is_paging(*c, r),
{
    let over = c.deficit_load.exceeds(c.alert_threshold);
    assert(scalar::is_excess(c.deficit_load, c.alert_threshold, over));
    over || c.adherence.unlogged_skips > 0
}

/// The page for a track.
pub fn build_alert<S: Scalar>(settings: &Settings, track: &Track<S>, c: &Computed<S>) -> (r: Alert)
    ensures
        is_alert(*settings, *track, *c, r),
{
    let mut body = track.name.clone();
    let over = c.deficit_load.exceeds(c.alert_threshold);
    assert(scalar::is_excess(c.deficit_load, c.alert_threshold, over));
    if over {
        let figure = c.deficit_sessions.tenths();
        assert(scalar::is_tenths(c.deficit_sessions, figure));
        body.append(": deficit ~");
        body.append(figure.as_str());
        body.append(" sessions below floor — schedule one and clear it.");
        assert(body@ == deficit_text(track.name@, figure@));
    } else {
        let count = text::numeral(c.adherence.unlogged_skips as u64);
        body.append(": ");
        body.append(count.as_str());
        body.append(" unlogged skip(s) — log a reason or do it.");
        assert(body@ == skips_text(track.name@, c.adherence.unlogged_skips as nat));
    }
    Alert {
        topic_url: settings.ntfy_url.clone(),
        title: track.name.clone(),
        body,
        priority: "high".to_owned(),
        tags: "warning".to_owned(),
        click: settings.dashboard_url.clone(),
    }
}

// --- How a page is sent ---

/// A request that sends a page.
pub struct Post {
    pub url: String,
    pub headers: Vec<(String, String)>,
    pub body: String,
}

/// The headers of a page.
pub open spec fn headers_of(alert: Alert, token: Option<String>) -> Seq<(Seq<char>, Seq<char>)> {
    let first = seq![
        ("Title"@, alert.title@),
        ("Priority"@, alert.priority@),
        ("Tags"@, alert.tags@),
    ];
    let second = match token {
        Some(token) => first.push(("Authorization"@, "Bearer "@ + token@)),
        None => first,
    };
    if alert.click@.len() > 0 {
        second.push(("Click"@, alert.click@))
    } else {
        second
    }
}

fn put_header(headers: &mut Vec<(String, String)>, name: &str, value: String)
    ensures
        final(headers).deep_view() == old(headers).deep_view().push((name@, value@)),
{
    headers.push((name.to_owned(), value));
    assert(headers.deep_view() =~= old(headers).deep_view().push((name@, value@)));
}

/// The request that sends a page, with the token if there is one.
pub fn notify(alert: &Alert, token: &Option<String>) -> (r: Post)
    ensures
        r.url == alert.topic_url,
        r.headers.deep_view() == headers_of(*alert, *token),
        r.body == alert.body,
{
    let mut headers: Vec<(String, String)> = Vec::new();
    assert(headers.deep_view() =~= Seq::<(Seq<char>, Seq<char>)>::empty());
    put_header(&mut headers, "Title", alert.title.clone());
    put_header(&mut headers, "Priority", alert.priority.clone());
    put_header(&mut headers, "Tags", alert.tags.clone());
    if let Some(token) = token {
        let mut value = "Bearer ".to_owned();
        value.append(token.as_str());
        put_header(&mut headers, "Authorization", value);
    }
    if !alert.click.as_str().is_empty() {
        put_header(&mut headers, "Click", alert.click.clone());
    }
    assert(headers.deep_view() =~= headers_of(*alert, *token));
    Post { url: alert.topic_url.clone(), headers, body: alert.body.clone() }
}

/// The token from the environment's variable, if that is set and not empty.
pub fn ntfy_token(variable: Option<String>) -> (r: Option<String>)
    ensures
        r == match variable {
            Some(token) => if token@.len() > 0 {
                Some(token)
            } else {
                None
            },
            None => None,
        },
{
    match variable {
        Some(token) => if token.as_str().is_empty() {
            None
        } else {
            Some(token)
        },
        None => None,
    }
}

}
