//! Laws of the pager: when it pages, what it says and each step of its look.

use vstd::prelude::*;

use crate::store;
use crate::store::{Command, Query, Stored};
use crate::store_laws;
use crate::systems::calendar;
use crate::systems::calendar::Now;
use crate::systems::model;
use crate::systems::model::Computed;
use crate::systems::model_laws;
use crate::systems::pager;
use crate::systems::pager::{Alert, Post};
use crate::systems::records::{LoggedSession, Record, Settings, Skip, Track};
use crate::systems::request_laws;
use crate::systems::scalar;
use crate::systems::scalar::Scalar;
use crate::systems::tick;
use crate::systems::tick::{Run, TickAction, TickEvent, TickState};
use crate::systems::tracks;
use crate::text;

verus! {

// --- Whether and what to page ---

/// `paging` is whether a page is called for: one skip without a reason is enough,
/// whatever the deficit; without any it is whether the deficit exceeds the threshold.
pub open spec fn calls<S: Scalar>(c: Computed<S>, paging: bool) -> bool {
    if c.adherence.unlogged_skips >= 1 {
        paging
    } else {
        call_ensures(S::exceeds, (c.deficit_load, c.alert_threshold), paging)
    }
}

/// When a page is called for.
pub proof fn lemma_should_page<S: Scalar>(c: &Computed<S>, paging: bool)
    requires
        call_ensures(pager::should_page::<S>, (c,), paging),
    ensures
        calls(*c, paging),
        c.adherence.unlogged_skips >= 1 ==> paging,
{
}

/// One more skip without a reason never takes a page back.
pub proof fn lemma_skips_keep_paging<S: Scalar>(
    c: &Computed<S>,
    d: &Computed<S>,
    before: bool,
    after: bool,
)
    requires
        call_ensures(pager::should_page::<S>, (c,), before),
        call_ensures(pager::should_page::<S>, (d,), after),
        d.adherence.unlogged_skips == c.adherence.unlogged_skips + 1,
    ensures
        before ==> after,
{
}

/// The page goes to the topic, under the track's name and with a link to the dashboard.
/// It gives the deficit in sessions where that exceeds the threshold, and the number of
/// skips elsewhere.
pub open spec fn tells<S: Scalar>(
    settings: Settings,
    track: Track<S>,
    c: Computed<S>,
    alert: Alert,
) -> bool {
    &&& alert.topic_url@ == settings.ntfy_url@
    &&& alert.title@ == track.name@
    &&& alert.priority@ == "high"@
    &&& alert.tags@ == "warning"@
    &&& alert.click@ == settings.dashboard_url@
    &&& exists|over: bool|
        #![trigger call_ensures(S::exceeds, (c.deficit_load, c.alert_threshold), over)]
        call_ensures(S::exceeds, (c.deficit_load, c.alert_threshold), over) && if over {
            gives_deficit(track.name@, c.deficit_sessions, alert.body@)
        } else {
            alert.body@ == track.name@ + ": "@ + text::decimal(c.adherence.unlogged_skips as nat)
                + " unlogged skip(s) — log a reason or do it."@
        }
}

pub open spec fn gives_deficit<S: Scalar>(name: Seq<char>, deficit: S, body: Seq<char>) -> bool {
    exists|figure: String| #[trigger]
        call_ensures(S::tenths, (deficit,), figure) && body == name + ": deficit ~"@ + figure@
            + " sessions below floor — schedule one and clear it."@
}

proof fn lemma_tells<S: Scalar>(settings: Settings, track: Track<S>, c: Computed<S>, alert: Alert)
    requires
        pager::is_alert(settings, track, c, alert),
    ensures
        tells(settings, track, c, alert),
{
    let over = choose|over: bool| #[trigger]
        scalar::is_excess(c.deficit_load, c.alert_threshold, over) && if over {
            exists|figure: String| #[trigger]
                scalar::is_tenths(c.deficit_sessions, figure) && alert.body@ == pager::deficit_text(
                    track.name@,
                    figure@,
                )
        } else {
            alert.body@ == pager::skips_text(track.name@, c.adherence.unlogged_skips as nat)
        };
    if over {
        let figure = choose|figure: String| #[trigger]
            scalar::is_tenths(c.deficit_sessions, figure) && alert.body@ == pager::deficit_text(
                track.name@,
                figure@,
            );
        assert(call_ensures(S::tenths, (c.deficit_sessions,), figure));
        assert(gives_deficit(track.name@, c.deficit_sessions, alert.body@));
    }
    assert(call_ensures(S::exceeds, (c.deficit_load, c.alert_threshold), over));
}

/// What a page says.
pub proof fn lemma_build_alert<S: Scalar>(
    settings: &Settings,
    track: &Track<S>,
    c: &Computed<S>,
    alert: Alert,
)
    requires
        call_ensures(pager::build_alert::<S>, (settings, track, c), alert),
    ensures
        tells(*settings, *track, *c, alert),
{
    lemma_tells(*settings, *track, *c, alert);
}

/// A page is sent to its topic with its text, and with its title, priority and tags;
/// with the token where there is one, and with the link where that is not empty.
pub proof fn lemma_notify(alert: &Alert, token: &Option<String>, post: Post)
    requires
        call_ensures(pager::notify, (alert, token), post),
    ensures
        post.url@ == alert.topic_url@,
        post.body@ == alert.body@,
        post.headers@.len() == 3 + (if token is Some {
            1int
        } else {
            0
        }) + (if alert.click@.len() > 0 {
            1int
        } else {
            0
        }),
        post.headers@[0].0@ == "Title"@ && post.headers@[0].1@ == alert.title@,
        post.headers@[1].0@ == "Priority"@ && post.headers@[1].1@ == alert.priority@,
        post.headers@[2].0@ == "Tags"@ && post.headers@[2].1@ == alert.tags@,
        token matches Some(secret) ==> post.headers@[3].0@ == "Authorization"@
            && post.headers@[3].1@ == "Bearer "@ + secret@,
        alert.click@.len() > 0 ==> post.headers@.last().0@ == "Click"@
            && post.headers@.last().1@ == alert.click@,
{
    let headers = post.headers@;
    let shown = post.headers.deep_view();
    assert(shown.len() == headers.len());
    assert forall|i: int| 0 <= i < headers.len() implies #[trigger] shown[i] == (
        headers[i].0@,
        headers[i].1@,
    ) by {}
    assert(shown[0].0 == headers[0].0@);
    assert(shown[1].0 == headers[1].0@);
    assert(shown[2].0 == headers[2].0@);
    if token is Some {
        assert(shown[3].0 == headers[3].0@);
    }
    assert(shown[headers.len() - 1].0 == headers[headers.len() - 1].0@);
}

/// A token is one that is set and not empty.
pub proof fn lemma_ntfy_token(variable: Option<String>, token: Option<String>)
    requires
        call_ensures(pager::ntfy_token, (variable,), token),
    ensures
        token is Some <==> variable is Some && variable->0@.len() > 0,
        token is Some ==> token == variable,
{
}

// --- The steps of a look ---

/// The look is over.
pub open spec fn is_over<S>(next: TickState<S>, action: TickAction<S>) -> bool {
    next is Done && action is Stop
}

/// The sessions of the track are asked for, with `rest` to come after it.
pub open spec fn asks_sessions<S>(
    run: Run<S>,
    track: Track<S>,
    rest: Seq<Track<S>>,
    next: TickState<S>,
    action: TickAction<S>,
) -> bool {
    &&& next matches TickState::ReadingSessions { run: on, track: read }
    &&& on.settings == run.settings && on.now == run.now && on.rest@ == rest
    &&& read == track
    &&& action matches TickAction::Ask(Query::ListAll { key })
    &&& key@ == "systems:sessions:"@ + track.id@
}

/// The look turns to the next track, and is over where there is none. Where today is
/// one of the track's weekdays, it first asks whether today's occurrence is noted.
pub open spec fn turns<S>(run: Run<S>, next: TickState<S>, action: TickAction<S>) -> bool {
    if run.rest@.len() == 0 {
        is_over(next, action)
    } else if run.rest@[0].weekdays@.contains((run.now.day as int % 7) as u32) {
        &&& next matches TickState::CheckingDue { run: on, track }
        &&& on.settings == run.settings && on.now == run.now && on.rest@ == run.rest@.skip(1)
        &&& track == run.rest@[0]
        &&& action matches TickAction::Ask(Query::HashHas { key, field })
        &&& key@ == "systems:scheduled:"@ + track.id@
        &&& field@ == calendar::formatted_day(run.now.day, "%Y-%m-%d"@)
    } else {
        asks_sessions(run, run.rest@[0], run.rest@.skip(1), next, action)
    }
}

proof fn lemma_turns<S>(run: Run<S>, next: TickState<S>, action: TickAction<S>)
    requires
        tick::goes_on(run, next, action),
    ensures
        turns(run, next, action),
{
    assert(run.rest@.len() > 0 ==> run.rest@.drop_first() =~= run.rest@.skip(1));
}

/// A look begins with the settings.
pub proof fn lemma_start_tick<S>(r: (TickState<S>, TickAction<S>))
    requires
        call_ensures(tick::start_tick::<S>, (), r),
    ensures
        r.0 is ReadingSettings,
        r.1 matches TickAction::Ask(Query::Get { key }) && key@ == "systems:settings"@,
{
}

/// With a topic, and from its hour on, the look goes on to the tracks; it is over where
/// the topic is blank, before the hour, and where no settings read.
pub proof fn lemma_settings_read<S: Scalar>(
    stored: Stored<Settings>,
    now: Now,
    r: (TickState<S>, TickAction<S>),
)
    requires
        call_ensures(
            tick::tick_once::<S>,
            (TickState::<S>::ReadingSettings, TickEvent::<S>::Settings(stored, now)),
            r,
        ),
    ensures
        match stored {
            Stored::Value(settings) => if now.hour >= settings.alert_hour && exists|i: int|
                0 <= i < settings.ntfy_url@.len() && !text::is_white(
                    #[trigger] settings.ntfy_url@[i],
                ) {
                &&& r.0 == (TickState::<S>::ReadingTracks { settings, now })
                &&& r.1 matches TickAction::Ask(Query::HashAll { key })
                &&& key@ == "systems:tracks"@
            } else {
                is_over(r.0, r.1)
            },
            _ => is_over(r.0, r.1),
        },
{
    let settings = choose|settings: Settings| #[trigger]
        tracks::are_settings(stored, settings) && if tick::is_awake(settings, now) {
            &&& r.0 == (TickState::<S>::ReadingTracks { settings, now })
            &&& r.1 matches TickAction::Ask(Query::HashAll { key })
            &&& key@ == "systems:tracks"@
        } else {
            tick::ends(r.0, r.1)
        };
    assert(tick::settings_step::<S>(stored, now, r.0, r.1));
    assert(tracks::are_settings(stored, settings));
    if stored !is Value {
        assert(settings.ntfy_url@.len() == 0);
        assert(text::is_blank(settings.ntfy_url@));
    }
}

/// The look turns to the oldest of the tracks that read.
pub proof fn lemma_tracks_read<S: Scalar>(
    settings: Settings,
    now: Now,
    raw: Vec<Stored<Track<S>>>,
    r: (TickState<S>, TickAction<S>),
) -> (run: Run<S>)
    requires
        call_ensures(
            tick::tick_once::<S>,
            (TickState::<S>::ReadingTracks { settings, now }, TickEvent::<S>::Tracks(raw)),
            r,
        ),
    ensures
        run.settings == settings,
        run.now == now,
        request_laws::lists_tracks(raw@, run.rest@),
        turns(run, r.0, r.1),
{
    request_laws::lemma_tracks_of(raw@);
    let run = choose|run: Run<S>|
        run.is(settings, now, tracks::tracks_of(raw@)) && #[trigger] tick::goes_on(run, r.0, r.1);
    lemma_turns(run, r.0, r.1);
    run
}

/// An occurrence that is due and not noted is noted, under the day and with the time;
/// then, as where it was noted before, the sessions are asked for.
pub proof fn lemma_due_checked<S: Scalar>(
    run: Run<S>,
    track: Track<S>,
    noted: bool,
    r: (TickState<S>, TickAction<S>),
    after: (TickState<S>, TickAction<S>),
)
    requires
        call_ensures(
            tick::tick_once::<S>,
            (TickState::<S>::CheckingDue { run, track }, TickEvent::<S>::Has(noted)),
            r,
        ),
        call_ensures(
            tick::tick_once::<S>,
            (TickState::<S>::NotingDue { run, track }, TickEvent::<S>::Written),
            after,
        ),
    ensures
        noted ==> asks_sessions(run, track, run.rest@, r.0, r.1),
        !noted ==> {
            &&& r.0 == (TickState::<S>::NotingDue { run, track })
            &&& r.1 matches TickAction::Write(Command::HashSet { key, field, value })
            &&& key@ == "systems:scheduled:"@ + track.id@
            &&& field@ == calendar::formatted_day(run.now.day, "%Y-%m-%d"@)
            &&& value matches Record::Scheduled(scheduled)
            &&& scheduled.materialized_ms == run.now.ms
        },
        asks_sessions(run, track, run.rest@, after.0, after.1),
{
}

/// After the sessions the skips are asked for, with all sessions that read.
pub proof fn lemma_sessions_read<S: Scalar>(
    run: Run<S>,
    track: Track<S>,
    raw: Vec<Stored<LoggedSession<S>>>,
    r: (TickState<S>, TickAction<S>),
)
    requires
        call_ensures(
            tick::tick_once::<S>,
            (TickState::<S>::ReadingSessions { run, track }, TickEvent::<S>::Sessions(raw)),
            r,
        ),
    ensures
        r.0 matches TickState::ReadingSkips { run: on, track: read, sessions } && on == run && read
            == track && store_laws::reads_as(raw@, sessions@),
        r.1 matches TickAction::Ask(Query::ListAll { key }) && key@ == "systems:skips:"@ + track.id@,
{
    store_laws::lemma_values_of(raw@);
}

/// The last page of the track is asked for, with the page that tells what was computed.
pub open spec fn asks_last_page<S: Scalar>(
    run: Run<S>,
    track: Track<S>,
    c: Computed<S>,
    next: TickState<S>,
    action: TickAction<S>,
) -> bool {
    &&& next matches TickState::ReadingLastPage { run: on, id, alert }
    &&& on == run
    &&& id@ == track.id@
    &&& tells(run.settings, track, c, alert)
    &&& action matches TickAction::Ask(Query::Get { key })
    &&& key@ == "systems:last_alert:"@ + track.id@
}

/// What follows from the model of a track: the last page is asked for where a page is
/// called for, and the look turns to the next track elsewhere.
pub open spec fn decides<S: Scalar>(
    run: Run<S>,
    track: Track<S>,
    c: Computed<S>,
    next: TickState<S>,
    action: TickAction<S>,
) -> bool {
    &&& c.adherence.unlogged_skips >= 1 ==> asks_last_page(run, track, c, next, action)
    &&& exists|paging: bool| #[trigger]
        calls(c, paging) && if paging {
            asks_last_page(run, track, c, next, action)
        } else {
            turns(run, next, action)
        }
}

/// After the skips the model of the track decides: with a skip without a reason in it
/// the last page is asked for, whatever the deficit.
pub proof fn lemma_skips_read<S: Scalar>(
    run: Run<S>,
    track: Track<S>,
    logged: Vec<LoggedSession<S>>,
    raw: Vec<Stored<Skip>>,
    r: (TickState<S>, TickAction<S>),
) -> (found: (Seq<Skip>, Computed<S>))
    requires
        -95_746_129 <= run.now.day <= 95_745_399,
        call_ensures(
            tick::tick_once::<S>,
            (
                TickState::<S>::ReadingSkips { run, track, sessions: logged },
                TickEvent::<S>::Skips(raw),
            ),
            r,
        ),
    ensures
        store_laws::reads_as(raw@, found.0),
        model_laws::is_model_now(
            track,
            logged@,
            found.0,
            run.settings.warmup_days,
            run.now.day as int,
            found.1,
        ),
        decides(run, track, found.1, r.0, r.1),
{
    store_laws::lemma_values_of(raw@);
    let skips = store::values_of(raw@);
    let c = choose|c: Computed<S>|
        model::is_computed_now(track, logged@, skips, run.settings, run.now, c)
            && #[trigger] tick::computed_step(run, track, c, r.0, r.1);
    model_laws::lemma_computed_now_is_model(track, logged@, skips, run.settings, run.now, c);
    let paging = choose|paging: bool| #[trigger]
        pager::is_paging(c, paging) && if paging {
            &&& r.0 matches TickState::ReadingLastPage { run: carried, id, alert }
            &&& carried == run
            &&& id == track.id
            &&& pager::is_alert(run.settings, track, c, alert)
            &&& r.1 matches TickAction::Ask(Query::Get { key })
            &&& key@ == "systems:last_alert:"@ + track.id@
        } else {
            tick::goes_on(run, r.0, r.1)
        };
    assert(tick::computed_step(run, track, c, r.0, r.1));
    if paging {
        lemma_tells(run.settings, track, c, r.0->ReadingLastPage_alert);
    } else {
        lemma_turns(run, r.0, r.1);
    }
    assert(calls(c, paging));
    (skips, c)
}

/// The page is sent unless one was sent today; then the look turns to the next track.
pub proof fn lemma_last_page_read<S: Scalar>(
    run: Run<S>,
    id: String,
    alert: Alert,
    day: Option<String>,
    r: (TickState<S>, TickAction<S>),
)
    requires
        call_ensures(
            tick::tick_once::<S>,
            (TickState::<S>::ReadingLastPage { run, id, alert }, TickEvent::<S>::LastPage(day)),
            r,
        ),
    ensures
        day is Some && day->0@ == calendar::formatted_day(run.now.day, "%Y-%m-%d"@) ==> turns(
            run,
            r.0,
            r.1,
        ),
        !(day is Some && day->0@ == calendar::formatted_day(run.now.day, "%Y-%m-%d"@)) ==> r.0 == (
        TickState::<S>::Paging { run, id }) && r.1 == TickAction::<S>::Page(alert),
{
    if day is Some && day->0@ == calendar::formatted_day(run.now.day, "%Y-%m-%d"@) {
        lemma_turns(run, r.0, r.1);
    }
}

/// A page that was sent is noted with its day, and then the look turns to the next
/// track.
pub proof fn lemma_paged<S: Scalar>(
    run: Run<S>,
    id: String,
    r: (TickState<S>, TickAction<S>),
    after: (TickState<S>, TickAction<S>),
)
    requires
        call_ensures(
            tick::tick_once::<S>,
            (TickState::<S>::Paging { run, id }, TickEvent::<S>::Paged),
            r,
        ),
        call_ensures(
            tick::tick_once::<S>,
            (TickState::<S>::NotingPage { run }, TickEvent::<S>::Written),
            after,
        ),
    ensures
        r.0 == (TickState::<S>::NotingPage { run }),
        r.1 matches TickAction::Write(Command::Put { key, value }) && key@ == "systems:last_alert:"@
            + id@ && (value matches Record::Day(day) && day@ == calendar::formatted_day(
            run.now.day,
            "%Y-%m-%d"@,
        )),
        turns(run, after.0, after.1),
{
    lemma_turns(run, after.0, after.1);
}

/// A failure of the store ends the look, wherever it is.
pub proof fn lemma_failed<S: Scalar>(state: TickState<S>, r: (TickState<S>, TickAction<S>))
    requires
        call_ensures(tick::tick_once::<S>, (state, TickEvent::<S>::Failed), r),
    ensures
        is_over(r.0, r.1),
{
}

/// What an action can lead to.
pub open spec fn is_expected<S>(state: TickState<S>, event: TickEvent<S>) -> bool {
    match state {
        TickState::ReadingSettings => event is Settings,
        TickState::ReadingTracks { .. } => event is Tracks,
        TickState::CheckingDue { .. } => event is Has,
        TickState::NotingDue { .. } => event is Written,
        TickState::ReadingSessions { .. } => event is Sessions,
        TickState::ReadingSkips { .. } => event is Skips,
        TickState::ReadingLastPage { .. } => event is LastPage,
        TickState::Paging { .. } => event is Paged,
        TickState::NotingPage { .. } => event is Written,
        TickState::Done => false,
    }
}

/// What no action of the state can lead to ends the look.
pub proof fn lemma_unexpected<S: Scalar>(
    state: TickState<S>,
    event: TickEvent<S>,
    r: (TickState<S>, TickAction<S>),
)
    requires
        call_ensures(tick::tick_once::<S>, (state, event), r),
        !is_expected(state, event),
    ensures
        is_over(r.0, r.1),
{
}

/// The pager looks four times an hour, and gives a page up long before the next look.
pub proof fn lemma_looks_in_time()
    ensures
        4 * tick::TICK_SECS == 60 * 60,
        pager::NTFY_TIMEOUT_SECS == 10,
        pager::NTFY_TIMEOUT_SECS < tick::TICK_SECS,
{
}

}
