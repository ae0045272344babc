//! Laws of the dashboard and the overview.

use vstd::prelude::*;

use crate::http::{Response, Status};
use crate::store;
use crate::store::{Query, StoreFault, Stored};
use crate::store_laws;
use crate::systems::calendar::Now;
use crate::systems::model::Computed;
use crate::systems::model_laws;
use crate::systems::records::{LoggedSession, Settings, Skip, Track};
use crate::systems::request_laws;
use crate::systems::scalar::Scalar;
use crate::systems::tracks;
use crate::systems::views;
use crate::systems::views::{Dashboard, LogRequest, OverviewItem, RawLog};

verus! {

/// `c` is the model of a track by what reads of its log.
pub open spec fn is_model_of<S: Scalar>(
    track: Track<S>,
    log: RawLog<S>,
    sessions: Seq<LoggedSession<S>>,
    skips: Seq<Skip>,
    warmup_days: i64,
    today: int,
    c: Computed<S>,
) -> bool {
    &&& store_laws::reads_as(log.sessions@, sessions)
    &&& store_laws::reads_as(log.skips@, skips)
    &&& model_laws::is_model_now(track, sessions, skips, warmup_days, today, c)
}

/// The dashboard shows the whole model, under the track's id, name and kind, computed
/// with the settings that hold.
pub open spec fn shows_all<S: Scalar>(
    track: Track<S>,
    stored: Stored<Settings>,
    log: RawLog<S>,
    today: int,
    dashboard: Dashboard<S>,
) -> bool {
    exists|settings: Settings, sessions: Seq<LoggedSession<S>>, skips: Seq<Skip>, c: Computed<S>|
        request_laws::settings_hold(stored, settings) && #[trigger] is_model_of(
            track,
            log,
            sessions,
            skips,
            settings.warmup_days,
            today,
            c,
        ) && {
            &&& dashboard.id@ == track.id@
            &&& dashboard.name@ == track.name@
            &&& dashboard.kind@ == track.kind@
            &&& dashboard.floor == c.floor
            &&& dashboard.deficit_load == c.deficit_load
            &&& dashboard.deficit_sessions == c.deficit_sessions
            &&& dashboard.alert_threshold == c.alert_threshold
            &&& dashboard.fitness@ == c.fitness@
            &&& dashboard.daily_load@ == c.daily_load@
            &&& dashboard.adherence == c.adherence
        }
}

/// The dashboard of a track.
pub proof fn lemma_get_dashboard<S: Scalar>(
    track: Track<S>,
    read: Result<(Stored<Settings>, RawLog<S>), StoreFault>,
    now: Now,
    response: Response<Dashboard<S>>,
)
    requires
        -95_746_129 <= now.day <= 95_745_399,
        call_ensures(views::get_dashboard::<S>, (track, read, now), response),
    ensures
        match read {
            Ok((stored, log)) => response matches Response::Json(dashboard) && shows_all(
                track,
                stored,
                log,
                now.day as int,
                dashboard,
            ),
            Err(_) => response == Response::<Dashboard<S>>::Bare(Status::BadGateway),
        },
{
    if let Ok((stored, log)) = read {
        let dashboard = response->Json_0;
        let (settings, c) = choose|settings: Settings, c: Computed<S>|
            tracks::are_settings(stored, settings) && #[trigger] views::is_computed_from(
                track,
                log,
                settings,
                now,
                c,
            ) && dashboard == views::dashboard_of(track, c);
        assert(views::is_dashboard(track, stored, log, now, dashboard));
        let sessions = store::values_of(log.sessions@);
        let skips = store::values_of(log.skips@);
        store_laws::lemma_values_of(log.sessions@);
        store_laws::lemma_values_of(log.skips@);
        model_laws::lemma_computed_now_is_model(track, sessions, skips, settings, now, c);
        assert(is_model_of(
            track,
            log,
            sessions,
            skips,
            settings.warmup_days,
            now.day as int,
            c,
        ));
        assert(request_laws::settings_hold(stored, settings));
    }
}

/// `latest` is the time of the last session: that of one of them, and of none an
/// earlier one.
pub open spec fn is_last<S>(sessions: Seq<LoggedSession<S>>, latest: Option<i64>) -> bool {
    &&& latest is None <==> sessions.len() == 0
    &&& sessions.len() > 0 ==> exists|i: int|
        0 <= i < sessions.len() && (#[trigger] sessions[i]).ts_ms == latest->0
    &&& forall|i: int| 0 <= i < sessions.len() ==> (#[trigger] sessions[i]).ts_ms <= latest->0
}

/// A row of the overview shows the deficits and the threshold of the model, whether the
/// one exceeds the other, the skips and the time of the last session.
pub open spec fn shows_row<S: Scalar>(
    track: Track<S>,
    log: RawLog<S>,
    warmup_days: i64,
    today: int,
    item: OverviewItem<S>,
) -> bool {
    exists|sessions: Seq<LoggedSession<S>>, skips: Seq<Skip>, c: Computed<S>| #[trigger]
        is_model_of(track, log, sessions, skips, warmup_days, today, c) && {
            &&& item.id@ == track.id@
            &&& item.name@ == track.name@
            &&& item.kind@ == track.kind@
            &&& item.deficit_load == c.deficit_load
            &&& item.deficit_sessions == c.deficit_sessions
            &&& item.alert_threshold == c.alert_threshold
            &&& call_ensures(
                S::exceeds,
                (c.deficit_load, c.alert_threshold),
                item.over_threshold,
            )
            &&& item.unlogged_skips == c.adherence.unlogged_skips
            &&& is_last(sessions, item.last_session_ms)
        }
}

proof fn lemma_row<S: Scalar>(
    track: Track<S>,
    log: RawLog<S>,
    settings: Settings,
    now: Now,
    item: OverviewItem<S>,
)
    requires
        -95_746_129 <= now.day <= 95_745_399,
        views::is_item(track, log, settings, now, item),
    ensures
        shows_row(track, log, settings.warmup_days, now.day as int, item),
{
    let sessions = store::values_of(log.sessions@);
    let skips = store::values_of(log.skips@);
    let c = choose|c: Computed<S>| #[trigger]
        views::is_computed_from(track, log, settings, now, c) && views::is_item_of(
            track,
            sessions,
            c,
            item,
        );
    store_laws::lemma_values_of(log.sessions@);
    store_laws::lemma_values_of(log.skips@);
    model_laws::lemma_computed_now_is_model(track, sessions, skips, settings, now, c);
    assert(is_model_of(track, log, sessions, skips, settings.warmup_days, now.day as int, c));
}

/// The rows of the tracks, in their order.
pub open spec fn shows_rows<S: Scalar>(
    all: Seq<(Track<S>, RawLog<S>)>,
    warmup_days: i64,
    today: int,
    items: Seq<OverviewItem<S>>,
) -> bool {
    &&& items.len() == all.len()
    &&& forall|i: int|
        0 <= i < items.len() ==> shows_row(
            all[i].0,
            all[i].1,
            warmup_days,
            today,
            #[trigger] items[i],
        )
}

/// The overview has a row for each track, in their order, with the settings that hold.
pub proof fn lemma_get_overview<S: Scalar>(
    read: Result<(Stored<Settings>, Vec<(Track<S>, RawLog<S>)>), StoreFault>,
    now: Now,
    response: Response<Vec<OverviewItem<S>>>,
)
    requires
        -95_746_129 <= now.day <= 95_745_399,
        call_ensures(views::get_overview::<S>, (read, now), response),
    ensures
        match read {
            Ok((stored, all)) => response matches Response::Json(items) && exists|
                settings: Settings,
            |
                request_laws::settings_hold(stored, settings) && #[trigger] shows_rows(
                    all@,
                    settings.warmup_days,
                    now.day as int,
                    items@,
                ),
            Err(_) => response == Response::<Vec<OverviewItem<S>>>::Bare(Status::BadGateway),
        },
{
    if let Ok((stored, all)) = read {
        let items = response->Json_0@;
        let settings = choose|settings: Settings|
            tracks::are_settings(stored, settings) && #[trigger] views::are_items(
                all@,
                settings,
                now,
                items,
            );
        assert(views::is_overview(stored, all@, now, items));
        assert forall|i: int| 0 <= i < items.len() implies shows_row(
            all@[i].0,
            all@[i].1,
            settings.warmup_days,
            now.day as int,
            #[trigger] items[i],
        ) by {
            lemma_row(all@[i].0, all@[i].1, settings, now, items[i]);
        }
        assert(request_laws::settings_hold(stored, settings));
        assert(shows_rows(all@, settings.warmup_days, now.day as int, items));
    }
}

/// For each track its own sessions and skips are asked for.
pub proof fn lemma_log_requests<S>(all: Vec<Track<S>>, requests: Vec<LogRequest<S>>)
    requires
        call_ensures(views::log_requests::<S>, (all,), requests),
    ensures
        requests@.len() == all@.len(),
        forall|i: int|
            0 <= i < requests@.len() ==> {
                &&& (#[trigger] requests@[i]).track == all@[i]
                &&& requests@[i].sessions matches Query::ListAll { key }
                &&& key@ == "systems:sessions:"@ + all@[i].id@
            },
        forall|i: int|
            0 <= i < requests@.len() ==> {
                &&& (#[trigger] requests@[i]).skips matches Query::ListAll { key }
                &&& key@ == "systems:skips:"@ + all@[i].id@
            },
{
    assert forall|i: int| 0 <= i < requests@.len() implies views::asks_log(
        #[trigger] requests@[i],
        all@[i],
    ) by {}
}

}
