//! What is shown of tracks: the dashboard of one and the overview of all.

use vstd::prelude::*;

use crate::http::{Response, Status};
use crate::store;
use crate::store::{Query, StoreFault, Stored};
use crate::systems::adherence::Adherence;
use crate::systems::calendar::Now;
use crate::systems::keys;
use crate::systems::model;
use crate::systems::model::{Computed, DatePoint, LoadPoint};
use crate::systems::records::{LoggedSession, Settings, Skip, Track};
use crate::systems::scalar;
use crate::systems::scalar::Scalar;
use crate::systems::sessions;
use crate::systems::tracks;

verus! {

/// The sessions and the skips of a track, as they are read.
pub struct RawLog<S> {
    pub sessions: Vec<Stored<LoggedSession<S>>>,
    pub skips: Vec<Stored<Skip>>,
}

/// All of the model of one track.
pub struct Dashboard<S> {
    pub id: String,
    pub name: String,
    pub kind: String,
    pub floor: S,
    pub deficit_load: S,
    pub deficit_sessions: S,
    pub alert_threshold: S,
    pub fitness: Vec<DatePoint<S>>,
    pub daily_load: Vec<LoadPoint<S>>,
    pub adherence: Adherence,
}

/// One row of the overview.
pub struct OverviewItem<S> {
    pub id: String,
    pub name: String,
    pub kind: String,
    pub deficit_load: S,
    pub deficit_sessions: S,
    pub alert_threshold: S,
    pub over_threshold: bool,
    pub unlogged_skips: u32,
    pub last_session_ms: Option<i64>,
}

/// `c` is what is computed of a track from what was read of its log.
pub open spec fn is_computed_from<S: Scalar>(
    track: Track<S>,
    log: RawLog<S>,
    settings: Settings,
    now: Now,
    c: Computed<S>,
) -> bool {
    model::is_computed_now(
        track,
        store::values_of(log.sessions@),
        store::values_of(log.skips@),
        settings,
        now,
        c,
    )
}

// --- The dashboard ---

pub open spec fn dashboard_of<S>(track: Track<S>, c: Computed<S>) -> Dashboard<S> {
    Dashboard {
        id: track.id,
        name: track.name,
        kind: track.kind,
        floor: c.floor,
        deficit_load: c.deficit_load,
        deficit_sessions: c.deficit_sessions,
        alert_threshold: c.alert_threshold,
        fitness: c.fitness,
        daily_load: c.daily_load,
        adherence: c.adherence,
    }
}

/// `dashboard` shows what is computed of the track now, with the stored settings.
pub open spec fn is_dashboard<S: Scalar>(
    track: Track<S>,
    stored: Stored<Settings>,
    log: RawLog<S>,
    now: Now,
    dashboard: Dashboard<S>,
) -> bool {
    exists|settings: Settings, c: Computed<S>|
        tracks::are_settings(stored, settings) && #[trigger] is_computed_from(
            track,
            log,
            settings,
            now,
            c,
        ) && dashboard == dashboard_of(track, c)
}

/// The answer to a request for the dashboard of a track, from what was read: the
/// settings and the track's log.
pub fn get_dashboard<S: Scalar>(
    track: Track<S>,
    read: Result<(Stored<Settings>, RawLog<S>), StoreFault>,
    now: Now,
) -> (r: Response<Dashboard<S>>)
    requires
        now.valid(),
    ensures
        match read {
            Ok((stored, log)) => r matches Response::Json(dashboard) && is_dashboard(
                track,
                stored,
                log,
                now,
                dashboard,
            ),
            Err(_) => r == Response::<Dashboard<S>>::Bare(Status::BadGateway),
        },
{
    match read {
        Ok((stored, log)) => {
            let settings = tracks::load_settings(stored);
            let logged = sessions::load_sessions(log.sessions);
            let skips = sessions::load_skips(log.skips);
            let c = model::compute(&track, &logged, &skips, &settings, now);
            assert(is_computed_from(track, log, settings, now, c));
            Response::Json(
                Dashboard {
                    id: track.id,
                    name: track.name,
                    kind: track.kind,
                    floor: c.floor,
                    deficit_load: c.deficit_load,
                    deficit_sessions: c.deficit_sessions,
                    alert_threshold: c.alert_threshold,
                    fitness: c.fitness,
                    daily_load: c.daily_load,
                    adherence: c.adherence,
                },
            )
        },
        Err(_) => tracks::redis_bad(),
    }
}

// --- The overview ---

/// `r` is the time of the latest session, if there is a session.
pub open spec fn is_latest<S>(sessions: Seq<LoggedSession<S>>, r: Option<i64>) -> bool {
    match r {
        Some(latest) => {
            &&& exists|i: int|
                0 <= i < sessions.len() && (#[trigger] sessions[i]).ts_ms == latest
            &&& forall|i: int|
                0 <= i < sessions.len() ==> (#[trigger] sessions[i]).ts_ms <= latest
        },
        None => sessions.len() == 0,
    }
}

fn latest<S>(sessions: &Vec<LoggedSession<S>>) -> (r: Option<i64>)
    ensures
        is_latest(sessions@, r),
{
    let mut r: Option<i64> = None;
    let mut i: usize = 0;
    while i < sessions.len()
        invariant
            i <= sessions@.len(),
            is_latest(sessions@.take(i as int), r),
        decreases sessions@.len() - i,
    {
        let ts_ms = sessions[i].ts_ms;
        let ghost before = sessions@.take(i as int);
        let ghost after = sessions@.take(i + 1);
        assert(after[i as int].ts_ms == ts_ms);
        let keep = match r {
            Some(latest) => ts_ms < latest,
            None => false,
        };
        proof {
            assert forall|j: int| 0 <= j < after.len() implies (#[trigger] after[j]).ts_ms <= (
            if keep {
                r->0
            } else {
                ts_ms
            }) by {
                if j < i {
                    assert(after[j] == before[j]);
                }
            }
            if keep {
                let j = choose|j: int|
                    0 <= j < before.len() && (#[trigger] before[j]).ts_ms == r->0;
                assert(after[j] == before[j]);
            }
        }
        if !keep {
            r = Some(ts_ms);
        }
        i = i + 1;
    }
    assert(sessions@.take(sessions@.len() as int) =~= sessions@);
    r
}

/// `item` is the row of a track of which `c` is computed.
pub open spec fn is_item_of<S: Scalar>(
    track: Track<S>,
    sessions: Seq<LoggedSession<S>>,
    c: Computed<S>,
    item: OverviewItem<S>,
) -> bool {
    &&& item.id == track.id
    &&& item.name == track.name
    &&& item.kind == track.kind
    &&& item.deficit_load == c.deficit_load
    &&& item.deficit_sessions == c.deficit_sessions
    &&& item.alert_threshold == c.alert_threshold
    &&& scalar::is_excess(c.deficit_load, c.alert_threshold, item.over_threshold)
    &&& item.unlogged_skips == c.adherence.unlogged_skips
    &&& is_latest(sessions, item.last_session_ms)
}

/// `item` is the row of a track now.
pub open spec fn is_item<S: Scalar>(
    track: Track<S>,
    log: RawLog<S>,
    settings: Settings,
    now: Now,
    item: OverviewItem<S>,
) -> bool {
    exists|c: Computed<S>| #[trigger]
        is_computed_from(track, log, settings, now, c) && is_item_of(
            track,
            store::values_of(log.sessions@),
            c,
            item,
        )
}

/// `items` are the rows of the tracks, in their order.
pub open spec fn are_items<S: Scalar>(
    all: Seq<(Track<S>, RawLog<S>)>,
    settings: Settings,
    now: Now,
    items: Seq<OverviewItem<S>>,
) -> bool {
    &&& items.len() == all.len()
    &&& forall|i: int|
        0 <= i < items.len() ==> is_item(all[i].0, all[i].1, settings, now, #[trigger] items[i])
}

/// `items` is the overview of the tracks now, with the stored settings.
pub open spec fn is_overview<S: Scalar>(
    stored: Stored<Settings>,
    all: Seq<(Track<S>, RawLog<S>)>,
    now: Now,
    items: Seq<OverviewItem<S>>,
) -> bool {
    exists|settings: Settings|
        tracks::are_settings(stored, settings) && #[trigger] are_items(all, settings, now, items)
}

/// A track, with the queries for its log.
pub struct LogRequest<S> {
    pub track: Track<S>,
    pub sessions: Query,
    pub skips: Query,
}

/// `request` asks for the log of `track`.
pub open spec fn asks_log<S>(request: LogRequest<S>, track: Track<S>) -> bool {
    &&& request.track == track
    &&& request.sessions matches Query::ListAll { key: sessions }
    &&& sessions@ == keys::sessions_at(track.id@)
    &&& request.skips matches Query::ListAll { key: skips }
    &&& skips@ == keys::skips_at(track.id@)
}

/// Each of the tracks, with the queries for its log.
pub fn log_requests<S>(all: Vec<Track<S>>) -> (r: Vec<LogRequest<S>>)
    ensures
        r@.len() == all@.len(),
        forall|i: int| 0 <= i < r@.len() ==> asks_log(#[trigger] r@[i], all@[i]),
{
    let mut r: Vec<LogRequest<S>> = Vec::new();
    for track in it: all
        invariant
            it.seq() == all@,
            r@.len() == it.index(),
            forall|i: int| 0 <= i < r@.len() ==> asks_log(#[trigger] r@[i], all@[i]),
    {
        let of_sessions = sessions::sessions_query(track.id.as_str());
        let of_skips = sessions::skips_query(track.id.as_str());
        r.push(LogRequest { track, sessions: of_sessions, skips: of_skips });
    }
    r
}

fn overview_item<S: Scalar>(track: Track<S>, log: RawLog<S>, settings: &Settings, now: Now) -> (r:
    OverviewItem<S>)
    requires
        now.valid(),
    ensures
        is_item(track, log, *settings, now, r),
{
    let logged = sessions::load_sessions(log.sessions);
    let skips = sessions::load_skips(log.skips);
    let c = model::compute(&track, &logged, &skips, settings, now);
    assert(is_computed_from(track, log, *settings, now, c));
    OverviewItem {
        id: track.id,
        name: track.name,
        kind: track.kind,
        deficit_load: c.deficit_load,
        deficit_sessions: c.deficit_sessions,
        alert_threshold: c.alert_threshold,
        over_threshold: c.deficit_load.exceeds(c.alert_threshold),
        unlogged_skips: c.adherence.unlogged_skips,
        last_session_ms: latest(&logged),
    }
}

/// The answer to a request for the overview, from what was read: the settings, and the
/// tracks, each with its log.
pub fn get_overview<S: Scalar>(
    read: Result<(Stored<Settings>, Vec<(Track<S>, RawLog<S>)>), StoreFault>,
    now: Now,
) -> (r: Response<Vec<OverviewItem<S>>>)
    requires
        now.valid(),
    ensures
        match read {
            Ok((stored, all)) => r matches Response::Json(items) && is_overview(
                stored,
                all@,
                now,
                items@,
            ),
            Err(_) => r == Response::<Vec<OverviewItem<S>>>::Bare(Status::BadGateway),
        },
{
    let (stored, all) = match read {
        Ok(read) => read,
        Err(_) => {
            return tracks::redis_bad();
        },
    };
    let settings = tracks::load_settings(stored);
    let mut items: Vec<OverviewItem<S>> = Vec::new();
    for entry in it: all
        invariant
            it.seq() == all@,
            now.valid(),
            are_items(all@.take(it.index()), settings, now, items@),
    {
        let ghost before = items@;
        let (track, log) = entry;
        items.push(overview_item(track, log, &settings, now));
        assert forall|i: int| 0 <= i < items@.len() implies is_item(
            all@[i].0,
            all@[i].1,
            settings,
            now,
            #[trigger] items@[i],
        ) by {
            if i < before.len() {
                assert(items@[i] == before[i]);
                assert(all@.take(it.index())[i] == all@[i]);
            }
        }
    }
    assert(all@.take(all@.len() as int) =~= all@);
    assert(are_items(all@, settings, now, items@));
    Response::Json(items)
}

}
