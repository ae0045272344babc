//! Laws of the requests about settings, tracks and their logs, written out in what is
//! sent, what is read and what is answered.

use vstd::prelude::*;

use crate::http::{Response, Status};
use crate::order;
use crate::order::Ranked;
use crate::store;
use crate::store::{Command, Query, StoreFault, Stored};
use crate::store_laws;
use crate::systems::keys;
use crate::systems::records::{
    CreateTrack, LoggedSession, Record, SessionBody, Settings, Skip, SkipBody, StoredSession,
    Track, UpdateTrack,
};
use crate::systems::scalar::Scalar;
use crate::systems::sessions;
use crate::systems::sessions::LoadResp;
use crate::systems::tracks;
use crate::text;

verus! {

// --- Settings ---

/// `settings` are the stored ones, or where none read: no topic, no address, eight
/// o'clock and ninety days.
pub open spec fn settings_hold(stored: Stored<Settings>, settings: Settings) -> bool {
    match stored {
        Stored::Value(value) => settings == value,
        _ => {
            &&& settings.ntfy_url@.len() == 0
            &&& settings.dashboard_url@.len() == 0
            &&& settings.alert_hour == 8
            &&& settings.warmup_days == 90
        },
    }
}

/// The settings that are read and returned.
pub proof fn lemma_settings(
    stored: Stored<Settings>,
    loaded: Settings,
    reply: Result<Stored<Settings>, StoreFault>,
    response: Response<Settings>,
)
    requires
        call_ensures(tracks::load_settings, (stored,), loaded),
        call_ensures(tracks::get_settings, (reply,), response),
    ensures
        settings_hold(stored, loaded),
        reply matches Ok(read) ==> (response matches Response::Json(settings) && settings_hold(
            read,
            settings,
        )),
        reply is Err ==> response == Response::<Settings>::Bare(Status::BadGateway),
{
}

/// The command and the query for the settings are for the same key.
pub proof fn lemma_settings_kept<S>(settings: Settings, command: Command<Record<S>>, query: Query)
    requires
        call_ensures(tracks::put_settings::<S>, (settings,), command),
        call_ensures(tracks::settings_query, (), query),
    ensures
        command matches Command::Put { key, value } && key@ == "systems:settings"@ && value
            == Record::<S>::Settings(settings),
        query matches Query::Get { key } && key@ == "systems:settings"@,
{
}

/// A request that writes is answered with success if and only if the store did it.
pub proof fn lemma_written(outcome: Result<(), StoreFault>, response: Response<()>)
    requires
        call_ensures(tracks::written, (outcome,), response),
    ensures
        outcome is Ok ==> response == Response::<()>::Bare(Status::Success),
        outcome is Err ==> response == Response::<()>::Bare(Status::BadGateway),
{
}

// --- Reading tracks ---

/// `tracks` are the tracks at the places `perm`: each once, by the time of their
/// creation, and those of one time in the order of their places.
pub open spec fn by_age<S>(values: Seq<Track<S>>, perm: Seq<int>, tracks: Seq<Track<S>>) -> bool {
    &&& tracks.len() == values.len()
    &&& perm.len() == values.len()
    &&& forall|i: int|
        0 <= i < tracks.len() ==> 0 <= #[trigger] perm[i] < values.len() && tracks[i]
            == values[perm[i]]
    &&& forall|i: int, j: int|
        0 <= i < j < tracks.len() ==> {
            let a = values[#[trigger] perm[i]].created_ms;
            let b = values[#[trigger] perm[j]].created_ms;
            a < b || (a == b && perm[i] < perm[j])
        }
}

/// `tracks` are all tracks that read, the oldest first.
pub open spec fn lists_tracks<S>(raw: Seq<Stored<Track<S>>>, tracks: Seq<Track<S>>) -> bool {
    exists|values: Seq<Track<S>>, perm: Seq<int>|
        store_laws::reads_as(raw, values) && #[trigger] by_age(values, perm, tracks)
}

/// The tracks that read are listed, the oldest first.
pub proof fn lemma_tracks_of<S>(raw: Seq<Stored<Track<S>>>)
    ensures
        lists_tracks(raw, tracks::tracks_of(raw)),
{
    let values = store::values_of(raw);
    store_laws::lemma_values_of(raw);
    let perm = order::lemma_stable_sort_lists(values);
    let all = tracks::tracks_of(raw);
    assert forall|i: int| 0 <= i < all.len() implies 0 <= #[trigger] perm[i] < values.len()
        && all[i] == values[perm[i]] by {
        assert(order::stable_sorted(values)[i] == values[perm[i]]);
    }
    assert(by_age(values, perm, all));
}

/// The tracks are read and listed, the oldest first, and a failure of the store is
/// answered as one.
pub proof fn lemma_list_tracks<S>(
    raw: Vec<Stored<Track<S>>>,
    loaded: Vec<Track<S>>,
    reply: Result<Vec<Stored<Track<S>>>, StoreFault>,
    response: Response<Vec<Track<S>>>,
)
    requires
        call_ensures(tracks::load_tracks::<S>, (raw,), loaded),
        call_ensures(tracks::list_tracks::<S>, (reply,), response),
    ensures
        lists_tracks(raw@, loaded@),
        reply matches Ok(read) ==> (response matches Response::Json(all) && lists_tracks(
            read@,
            all@,
        )),
        reply is Err ==> response == Response::<Vec<Track<S>>>::Bare(Status::BadGateway),
{
    lemma_tracks_of(raw@);
    if let Ok(read) = reply {
        lemma_tracks_of(read@);
    }
}

/// What each query asks for.
pub proof fn lemma_queries(id: &str, all: Query, one: Query, logged: Query, skipped: Query)
    requires
        call_ensures(tracks::tracks_query, (), all),
        call_ensures(tracks::track_query, (id,), one),
        call_ensures(sessions::sessions_query, (id,), logged),
        call_ensures(sessions::skips_query, (id,), skipped),
    ensures
        all matches Query::HashAll { key } && key@ == "systems:tracks"@,
        one matches Query::HashGet { key, field } && key@ == "systems:tracks"@ && field@ == id@,
        logged matches Query::ListAll { key } && key@ == "systems:sessions:"@ + id@,
        skipped matches Query::ListAll { key } && key@ == "systems:skips:"@ + id@,
{
}

/// A track is found if one is there that reads; where none does the answer says so, and
/// where the store has failed it says that.
pub proof fn lemma_find_track<S, B>(
    reply: Result<Stored<Track<S>>, StoreFault>,
    found: Result<Track<S>, Response<B>>,
    response: Response<Track<S>>,
)
    requires
        call_ensures(tracks::find_track::<S, B>, (reply,), found),
        call_ensures(tracks::get_track::<S>, (reply,), response),
    ensures
        match reply {
            Ok(Stored::Value(track)) => found == Ok::<_, Response<B>>(track) && response
                == Response::Json(track),
            Ok(_) => found == Err::<Track<S>, _>(Response::<B>::Bare(Status::NotFound))
                && response == Response::<Track<S>>::Bare(Status::NotFound),
            Err(_) => found == Err::<Track<S>, _>(Response::<B>::Bare(Status::BadGateway))
                && response == Response::<Track<S>>::Bare(Status::BadGateway),
        },
{
}

/// A track is loaded where one reads, and a failure of the store is a bad gateway.
pub proof fn lemma_load_track<S, B>(
    stored: Stored<Track<S>>,
    loaded: Option<Track<S>>,
    bad: Response<B>,
)
    requires
        call_ensures(tracks::load_track::<S>, (stored,), loaded),
        call_ensures(tracks::redis_bad::<B>, (), bad),
    ensures
        stored matches Stored::Value(track) ==> loaded == Some(track),
        stored !is Value ==> loaded is None,
        bad == Response::<B>::Bare(Status::BadGateway),
{
}

// --- Creating, changing and removing tracks ---

/// An ASCII letter or digit.
pub open spec fn is_ascii_word(c: char) -> bool {
    48 <= c as u32 <= 57 || 65 <= c as u32 <= 90 || 97 <= c as u32 <= 122
}

/// `low` is `c` with a capital made small.
pub open spec fn is_lowered(c: char, low: char) -> bool {
    if 65 <= c as u32 <= 90 {
        low as u32 == c as u32 + 32
    } else {
        low == c
    }
}

proof fn lemma_ascii_word(c: char)
    ensures
        text::is_alphanumeric(c) == is_ascii_word(c),
{
}

/// What each further character of a name does to the id. One that is no letter or digit
/// does nothing. One that is goes behind the id, in lower case: next to the character
/// before it where that is a letter or digit or where the id is empty, and after a
/// hyphen elsewhere.
pub proof fn lemma_slug_goes_on(
    name: &str,
    longer: &str,
    c: char,
    id: String,
    longer_id: String,
) -> (low: char)
    requires
        call_ensures(keys::slugify, (name,), id),
        call_ensures(keys::slugify, (longer,), longer_id),
        longer@ == name@.push(c),
    ensures
        name@.len() == 0 ==> id@.len() == 0,
        is_lowered(c, low),
        !is_ascii_word(c) ==> longer_id@ == id@,
        is_ascii_word(c) && id@.len() == 0 ==> longer_id@ == seq![low],
        is_ascii_word(c) && id@.len() > 0 && is_ascii_word(name@.last()) ==> longer_id@
            == id@.push(low),
        is_ascii_word(c) && id@.len() > 0 && !is_ascii_word(name@.last()) ==> longer_id@
            == id@.push('-').push(low),
{
    keys::lemma_slug_grows(name@, c);
    lemma_ascii_word(c);
    lemma_ascii_word(name@.last());
    text::lower(c)
}

/// The track that is created has the id of its name and all that the request gives. It
/// is refused for a name without a letter or digit, and for a kind that is none of the
/// three.
pub proof fn lemma_create_track<S>(
    body: CreateTrack<S>,
    now_ms: i64,
    r: Result<Track<S>, Response<Track<S>>>,
    name: &str,
    id: String,
)
    requires
        call_ensures(tracks::create_track::<S>, (body, now_ms), r),
        name@ == body.name@,
        call_ensures(keys::slugify, (name,), id),
    ensures
        r is Ok <==> (exists|i: int|
            0 <= i < body.name@.len() && is_ascii_word(#[trigger] body.name@[i])) && (body.kind@
            == "box"@ || body.kind@ == "check"@ || body.kind@ == "loe"@),
        r matches Ok(track) ==> {
            &&& track.id@ == id@
            &&& track.name@ == body.name@
            &&& track.kind@ == body.kind@
            &&& track.tau_days == body.tau_days
            &&& track.mean_load == body.mean_load
            &&& track.period_days == body.period_days
            &&& track.alert_mult == body.alert_mult
            &&& track.weekdays@ == body.weekdays@
            &&& track.unit_load == body.unit_load
            &&& track.created_ms == now_ms
        },
        r matches Err(response) ==> (response matches Response::Text(status, message) && status
            == Status::BadRequest && message@ == if exists|i: int|
            0 <= i < body.name@.len() && is_ascii_word(#[trigger] body.name@[i]) {
            "kind must be box|check|loe"@
        } else {
            "name has no url-safe characters"@
        }),
{
    keys::lemma_slug_is_safe(body.name@);
    assert forall|i: int| 0 <= i < body.name@.len() implies text::is_alphanumeric(
        #[trigger] body.name@[i],
    ) == is_ascii_word(body.name@[i]) by {
        lemma_ascii_word(body.name@[i]);
    }
}

/// A track is stored under its id unless the id is taken, and the answer says which.
pub proof fn lemma_created<S>(
    track: &Track<S>,
    command: Command<Record<S>>,
    outcome: Result<bool, StoreFault>,
    response: Response<Track<S>>,
)
    requires
        call_ensures(tracks::create_command::<S>, (track,), command),
        call_ensures(tracks::created::<S>, (outcome, *track), response),
    ensures
        command matches Command::HashSetNew { key, field, value } && key@ == "systems:tracks"@
            && field@ == track.id@ && value == Record::Track(track),
        outcome == Ok::<bool, StoreFault>(true) ==> response == Response::Json(*track),
        outcome == Ok::<bool, StoreFault>(false) ==> response == Response::<Track<S>>::Bare(
            Status::Conflict,
        ),
        outcome is Err ==> response == Response::<Track<S>>::Bare(Status::BadGateway),
{
}

/// A change keeps the id, the kind and the time of creation of a track that is there,
/// and takes all else from the request.
pub proof fn lemma_update_track<S>(
    reply: Result<Stored<Track<S>>, StoreFault>,
    body: UpdateTrack<S>,
    r: Result<Track<S>, Response<()>>,
)
    requires
        call_ensures(tracks::update_track::<S>, (reply, body), r),
    ensures
        match reply {
            Ok(Stored::Value(old_track)) => {
                &&& r matches Ok(track)
                &&& track.id == old_track.id
                &&& track.kind == old_track.kind
                &&& track.created_ms == old_track.created_ms
                &&& track.name == body.name
                &&& track.tau_days == body.tau_days
                &&& track.mean_load == body.mean_load
                &&& track.period_days == body.period_days
                &&& track.alert_mult == body.alert_mult
                &&& track.weekdays == body.weekdays
                &&& track.unit_load == body.unit_load
            },
            Ok(_) => r == Err::<Track<S>, _>(Response::<()>::Bare(Status::NotFound)),
            Err(_) => r == Err::<Track<S>, _>(Response::<()>::Bare(Status::BadGateway)),
        },
{
}

/// The commands that change and remove a track.
pub proof fn lemma_track_commands<S>(
    id: &str,
    track: &Track<S>,
    update: Command<Record<S>>,
    delete: Command<Record<S>>,
    outcome: Result<(), StoreFault>,
    data: Result<Command<Record<S>>, Response<()>>,
)
    requires
        call_ensures(tracks::update_command::<S>, (id, track), update),
        call_ensures(tracks::delete_track::<S>, (id,), delete),
        call_ensures(tracks::delete_track_data::<S>, (id, outcome), data),
    ensures
        update matches Command::HashSet { key, field, value } && key@ == "systems:tracks"@
            && field@ == id@ && value == Record::Track(track),
        delete matches Command::HashDelete { key, field } && key@ == "systems:tracks"@ && field@
            == id@,
        outcome is Ok ==> (data matches Ok(Command::Delete { keys }) && keys@.len() == 4
            && keys@[0]@ == "systems:sessions:"@ + id@ && keys@[1]@ == "systems:skips:"@ + id@
            && keys@[2]@ == "systems:scheduled:"@ + id@ && keys@[3]@ == "systems:last_alert:"@
            + id@),
        outcome is Err ==> data == Err::<Command<Record<S>>, _>(
            Response::<()>::Bare(Status::BadGateway),
        ),
{
    if let Ok(Command::Delete { keys: all }) = data {
        assert(all@[0]@ == keys::track_keys(id@)[0]);
        assert(all@[1]@ == keys::track_keys(id@)[1]);
        assert(all@[2]@ == keys::track_keys(id@)[2]);
        assert(all@[3]@ == keys::track_keys(id@)[3]);
    }
}

// --- Logs ---

/// `load` is `unit` times the whole number `n`.
pub open spec fn is_times<S: Scalar>(unit: S, n: u32, load: S) -> bool {
    exists|factor: S|
        call_ensures(S::whole, (n,), factor) && #[trigger] call_ensures(
            S::times,
            (unit, factor),
            load,
        )
}

/// `r` is the load of a session: for the kind `box` the duration times the intensity,
/// for `check` the unit, for `loe` the unit at low effort, twice that at medium and
/// three times that at high effort. What lacks a part has no load, nor has another kind.
pub open spec fn scores<S: Scalar>(
    kind: Seq<char>,
    body: SessionBody<S>,
    unit_load: S,
    r: Option<S>,
) -> bool {
    if kind == "box"@ {
        if body.duration_min is Some && body.intensity is Some {
            r matches Some(load) && call_ensures(
                S::times,
                (body.duration_min->0, body.intensity->0),
                load,
            )
        } else {
            r is None
        }
    } else if kind == "check"@ {
        r == Some(unit_load)
    } else if kind == "loe"@ && body.loe is Some && body.loe->0@ == "low"@ {
        r == Some(unit_load)
    } else if kind == "loe"@ && body.loe is Some && body.loe->0@ == "med"@ {
        r matches Some(load) && is_times(unit_load, 2, load)
    } else if kind == "loe"@ && body.loe is Some && body.loe->0@ == "high"@ {
        r matches Some(load) && is_times(unit_load, 3, load)
    } else {
        r is None
    }
}

proof fn lemma_kinds_differ()
    ensures
        "box"@ != "check"@,
        "box"@ != "loe"@,
        "check"@ != "loe"@,
        "low"@ != "med"@,
        "low"@ != "high"@,
        "med"@ != "high"@,
{
    reveal_strlit("box");
    reveal_strlit("check");
    reveal_strlit("loe");
    reveal_strlit("low");
    reveal_strlit("med");
    reveal_strlit("high");
    assert("box"@[0] == 'b' && "check"@[0] == 'c' && "loe"@[0] == 'l');
    assert("low"@[0] == 'l' && "med"@[0] == 'm' && "high"@[0] == 'h');
}

proof fn lemma_scores<S: Scalar>(
    kind: Seq<char>,
    body: SessionBody<S>,
    unit_load: S,
    r: Option<S>,
)
    requires
        r is Some <==> sessions::is_scoreable(kind, body),
        r matches Some(load) ==> sessions::is_load(kind, body, unit_load, load),
    ensures
        scores(kind, body, unit_load, r),
{
    lemma_kinds_differ();
    if let Some(load) = r {
        if kind == "loe"@ {
            let times = sessions::effort(body.loe->0@)->0;
            if times != 1 {
                assert(sessions::is_multiple(unit_load, times, load));
                assert(is_times(unit_load, times, load));
            }
        }
    }
}

/// The load of a session.
pub proof fn lemma_compute_load<S: Scalar>(
    kind: &str,
    body: &SessionBody<S>,
    unit_load: S,
    r: Option<S>,
)
    requires
        call_ensures(sessions::compute_load::<S>, (kind, body, unit_load), r),
    ensures
        scores(kind@, *body, unit_load, r),
{
    lemma_scores(kind@, *body, unit_load, r);
}

/// A session is kept with the time that it gives, or else the present, with its load by
/// its track's kind and unit, and with the fields that the load came from.
pub proof fn lemma_log_session<S: Scalar>(
    reply: Result<Stored<Track<S>>, StoreFault>,
    body: SessionBody<S>,
    now_ms: i64,
    r: Result<StoredSession<S>, Response<LoadResp<S>>>,
)
    requires
        call_ensures(sessions::log_session::<S>, (reply, body, now_ms), r),
    ensures
        match reply {
            Ok(Stored::Value(track)) => match r {
                Ok(stored) => {
                    &&& body.ts_ms is Some ==> stored.ts_ms == body.ts_ms->0
                    &&& body.ts_ms is None ==> stored.ts_ms == now_ms
                    &&& scores(track.kind@, body, track.unit_load, Some(stored.load))
                    &&& track.kind@ == "box"@ ==> stored.duration_min == body.duration_min
                        && stored.intensity == body.intensity && stored.loe is None
                    &&& track.kind@ == "check"@ ==> stored.duration_min is None
                        && stored.intensity is None && stored.loe is None
                    &&& track.kind@ == "loe"@ ==> stored.duration_min is None
                        && stored.intensity is None && stored.loe == body.loe
                },
                Err(response) => {
                    &&& scores(track.kind@, body, track.unit_load, None)
                    &&& response matches Response::Text(status, message)
                    &&& status == Status::BadRequest
                    &&& message@ == "session body invalid for track kind"@
                },
            },
            Ok(_) => r == Err::<StoredSession<S>, _>(
                Response::<LoadResp<S>>::Bare(Status::NotFound),
            ),
            Err(_) => r == Err::<StoredSession<S>, _>(
                Response::<LoadResp<S>>::Bare(Status::BadGateway),
            ),
        },
{
    lemma_kinds_differ();
    if let Ok(Stored::Value(track)) = reply {
        match r {
            Ok(stored) => lemma_scores(track.kind@, body, track.unit_load, Some(stored.load)),
            Err(_) => lemma_scores(track.kind@, body, track.unit_load, None),
        }
    }
}

/// A skip of a track that is there is kept as it is sent, with the present.
pub proof fn lemma_log_skip<S>(
    reply: Result<Stored<Track<S>>, StoreFault>,
    body: SkipBody,
    now_ms: i64,
    r: Result<Skip, Response<()>>,
)
    requires
        call_ensures(sessions::log_skip::<S>, (reply, body, now_ms), r),
    ensures
        match reply {
            Ok(Stored::Value(_)) => {
                &&& r matches Ok(skip)
                &&& skip.scheduled_date == body.scheduled_date
                &&& skip.reason == body.reason
                &&& skip.ts_ms == now_ms
            },
            Ok(_) => r == Err::<Skip, _>(Response::<()>::Bare(Status::NotFound)),
            Err(_) => r == Err::<Skip, _>(Response::<()>::Bare(Status::BadGateway)),
        },
{
}

/// Sessions and skips go to the front of the lists that are read back, and a session's
/// answer gives its load.
pub proof fn lemma_log_commands<S>(
    id: &str,
    session: StoredSession<S>,
    skip: Skip,
    logs_session: Command<Record<S>>,
    logs_skip: Command<Record<S>>,
    outcome: Result<(), StoreFault>,
    load: S,
    response: Response<LoadResp<S>>,
)
    requires
        call_ensures(sessions::session_command::<S>, (id, session), logs_session),
        call_ensures(sessions::skip_command::<S>, (id, skip), logs_skip),
        call_ensures(sessions::session_logged::<S>, (outcome, load), response),
    ensures
        logs_session matches Command::ListPush { key, value } && key@ == "systems:sessions:"@ + id@
            && value == Record::<S>::Session(session),
        logs_skip matches Command::ListPush { key, value } && key@ == "systems:skips:"@ + id@
            && value == Record::<S>::Skip(skip),
        outcome is Ok ==> (response matches Response::Json(answer) && answer.load == load),
        outcome is Err ==> response == Response::<LoadResp<S>>::Bare(Status::BadGateway),
{
}

/// All sessions and skips that read are loaded, in the order of their lists.
pub proof fn lemma_load_log<S>(
    raw: Vec<Stored<LoggedSession<S>>>,
    loaded: Vec<LoggedSession<S>>,
    raw_skips: Vec<Stored<Skip>>,
    skips: Vec<Skip>,
)
    requires
        call_ensures(sessions::load_sessions::<S>, (raw,), loaded),
        call_ensures(sessions::load_skips, (raw_skips,), skips),
    ensures
        store_laws::reads_as(raw@, loaded@),
        store_laws::reads_as(raw_skips@, skips@),
{
    store_laws::lemma_values_of(raw@);
    store_laws::lemma_values_of(raw_skips@);
}

}
