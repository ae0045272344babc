//! The log of a track: its sessions, with their loads, and its skips.

use vstd::prelude::*;

use crate::http::{Response, Status};
use crate::store;
use crate::store::{Command, Db, Query, StoreFault, Stored};
use crate::systems::keys;
use crate::systems::records::{
    LoggedSession, Record, SessionBody, Skip, SkipBody, StoredSession, Track,
};
use crate::systems::scalar;
use crate::systems::scalar::Scalar;
use crate::systems::tracks;
use crate::text;

verus! {

/// What is returned of a session that was logged.
pub struct LoadResp<S> {
    pub load: S,
}

// --- The load of a session ---

/// The levels of effort, as multiples of the unit.
pub open spec fn effort(level: Seq<char>) -> Option<u32> {
    if level == "low"@ {
        Some(1)
    } else if level == "med"@ {
        Some(2)
    } else if level == "high"@ {
        Some(3)
    } else {
        None
    }
}

/// The session has what its track's kind needs.
pub open spec fn is_scoreable<S>(kind: Seq<char>, body: SessionBody<S>) -> bool {
    if kind == "box"@ {
        body.duration_min is Some && body.intensity is Some
    } else if kind == "check"@ {
        true
    } else if kind == "loe"@ {
        body.loe matches Some(level) && effort(level@) is Some
    } else {
        false
    }
}

/// `r` is `unit` as often as `times`.
pub open spec fn is_multiple<S: Scalar>(unit: S, times: u32, r: S) -> bool {
    exists|factor: S|
        scalar::is_whole(times, factor) && #[trigger] scalar::is_product(unit, factor, r)
}

/// `load` is the load of a session that has what its track's kind needs: of a `box` the
/// duration times the intensity, of a `check` the unit, of a `loe` the unit, twice or
/// three times the unit by the level of effort.
pub open spec fn is_load<S: Scalar>(
    kind: Seq<char>,
    body: SessionBody<S>,
    unit_load: S,
    load: S,
) -> bool {
    if kind == "box"@ {
        scalar::is_product(body.duration_min->0, body.intensity->0, load)
    } else if kind == "check"@ || effort(body.loe->0@) == Some(1u32) {
        load == unit_load
    } else {
        is_multiple(unit_load, effort(body.loe->0@)->0, load)
    }
}

fn multiple<S: Scalar>(unit: S, times: u32) -> (r: S)
    ensures
        is_multiple(unit, times, r),
{
    let factor = S::whole(times);
    let r = unit.times(factor);
    assert(scalar::is_product(unit, factor, r));
    r
}

/// The load of a session, if it has what its track's kind needs.
pub fn compute_load<S: Scalar>(kind: &str, body: &SessionBody<S>, unit_load: S) -> (r: Option<S>)
    ensures
        r is Some <==> is_scoreable(kind@, *body),
        r matches Some(load) ==> is_load(kind@, *body, unit_load, load),
{
    if text::same_text(kind, "box") {
        match (body.duration_min, body.intensity) {
            (Some(duration), Some(intensity)) => Some(duration.times(intensity)),
            _ => None,
        }
    } else if text::same_text(kind, "check") {
        Some(unit_load)
    } else if text::same_text(kind, "loe") {
        match &body.loe {
            Some(level) => if text::same_text(level.as_str(), "low") {
                Some(unit_load)
            } else if text::same_text(level.as_str(), "med") {
                Some(multiple(unit_load, 2))
            } else if text::same_text(level.as_str(), "high") {
                Some(multiple(unit_load, 3))
            } else {
                None
            },
            None => None,
        }
    } else {
        None
    }
}

// --- Reading the log ---

pub fn sessions_query(id: &str) -> (r: Query)
    ensures
        r matches Query::ListAll { key } && key@ == keys::sessions_at(id@),
{
    Query::ListAll { key: keys::sessions_key(id) }
}

pub fn skips_query(id: &str) -> (r: Query)
    ensures
        r matches Query::ListAll { key } && key@ == keys::skips_at(id@),
{
    Query::ListAll { key: keys::skips_key(id) }
}

/// The sessions that read, in the order of the list.
pub fn load_sessions<S>(raw: Vec<Stored<LoggedSession<S>>>) -> (r: Vec<LoggedSession<S>>)
    ensures
        r@ == store::values_of(raw@),
{
    store::readable(raw)
}

/// The skips that read, in the order of the list.
pub fn load_skips(raw: Vec<Stored<Skip>>) -> (r: Vec<Skip>)
    ensures
        r@ == store::values_of(raw@),
{
    store::readable(raw)
}

// --- Logging ---

/// `stored` is what is kept of a session of the track that is logged at `now_ms`: the
/// time that it gives or else that one, its load, and what the load was computed from.
pub open spec fn is_logged<S: Scalar>(
    track: Track<S>,
    body: SessionBody<S>,
    now_ms: i64,
    stored: StoredSession<S>,
) -> bool {
    &&& stored.ts_ms == (match body.ts_ms {
        Some(ts_ms) => ts_ms,
        None => now_ms,
    })
    &&& is_load(track.kind@, body, track.unit_load, stored.load)
    &&& stored.duration_min == (if track.kind@ == "box"@ {
        body.duration_min
    } else {
        None
    })
    &&& stored.intensity == (if track.kind@ == "box"@ {
        body.intensity
    } else {
        None
    })
    &&& stored.loe == (if track.kind@ == "loe"@ {
        body.loe
    } else {
        None
    })
}

/// What is kept of a session that is logged, or the answer if the track is missing or
/// the session lacks what the track's kind needs.
pub fn log_session<S: Scalar>(
    reply: Result<Stored<Track<S>>, StoreFault>,
    body: SessionBody<S>,
    now_ms: i64,
) -> (r: Result<StoredSession<S>, Response<LoadResp<S>>>)
    ensures
        match tracks::found_track::<S, LoadResp<S>>(reply) {
            Ok(track) => match r {
                Ok(stored) => is_scoreable(track.kind@, body) && is_logged(
                    track,
                    body,
                    now_ms,
                    stored,
                ),
                Err(response) => !is_scoreable(track.kind@, body) && response.says(
                    Status::BadRequest,
                    "session body invalid for track kind"@,
                ),
            },
            Err(response) => r == Err::<StoredSession<S>, _>(response),
        },
{
    let track: Track<S> = match tracks::find_track(reply) {
        Ok(track) => track,
        Err(response) => {
            return Err(response);
        },
    };
    let kind = track.kind.as_str();
    let load = match compute_load(kind, &body, track.unit_load) {
        Some(load) => load,
        None => {
            return Err(Response::text(Status::BadRequest, "session body invalid for track kind"));
        },
    };
    let is_box = text::same_text(kind, "box");
    let is_loe = text::same_text(kind, "loe");
    Ok(
        StoredSession {
            ts_ms: match body.ts_ms {
                Some(ts_ms) => ts_ms,
                None => now_ms,
            },
            load,
            duration_min: if is_box {
                body.duration_min
            } else {
                None
            },
            intensity: if is_box {
                body.intensity
            } else {
                None
            },
            loe: if is_loe {
                body.loe
            } else {
                None
            },
        },
    )
}

/// `command` puts the session in front of the sessions of the track `id`.
pub open spec fn logs_session<S>(
    command: Command<Record<S>>,
    id: Seq<char>,
    session: StoredSession<S>,
) -> bool {
    command matches Command::ListPush { key, value } && key@ == keys::sessions_at(id) && value
        == Record::<S>::Session(session)
}

pub fn session_command<'a, S>(id: &str, session: StoredSession<S>) -> (r: Command<Record<'a, S>>)
    ensures
        logs_session(r, id@, session),
{
    Command::ListPush { key: keys::sessions_key(id), value: Record::Session(session) }
}

/// The answer to a request that logs a session of the given load, from what the store
/// did.
pub fn session_logged<S>(outcome: Result<(), StoreFault>, load: S) -> (r: Response<LoadResp<S>>)
    ensures
        r == match outcome {
            Ok(()) => Response::Json(LoadResp { load }),
            Err(_) => Response::Bare(Status::BadGateway),
        },
{
    match outcome {
        Ok(()) => Response::Json(LoadResp { load }),
        Err(_) => tracks::redis_bad(),
    }
}

/// What is kept of a skip that is logged, or the answer if the track is missing.
pub fn log_skip<S>(reply: Result<Stored<Track<S>>, StoreFault>, body: SkipBody, now_ms: i64) -> (r:
    Result<Skip, Response<()>>)
    ensures
        r == match tracks::found_track::<S, ()>(reply) {
            Ok(_) => Ok(
                (Skip { scheduled_date: body.scheduled_date, reason: body.reason, ts_ms: now_ms }),
            ),
            Err(response) => Err(response),
        },
{
    match tracks::find_track(reply) {
        Ok(_) => Ok(
            Skip { scheduled_date: body.scheduled_date, reason: body.reason, ts_ms: now_ms },
        ),
        Err(response) => Err(response),
    }
}

/// `command` puts the skip in front of the skips of the track `id`.
pub open spec fn logs_skip<S>(command: Command<Record<S>>, id: Seq<char>, skip: Skip) -> bool {
    command matches Command::ListPush { key, value } && key@ == keys::skips_at(id) && value
        == Record::<S>::Skip(skip)
}

pub fn skip_command<'a, S>(id: &str, skip: Skip) -> (r: Command<Record<'a, S>>)
    ensures
        logs_skip(r, id@, skip),
{
    Command::ListPush { key: keys::skips_key(id), value: Record::Skip(skip) }
}

// --- Laws ---

/// The sessions of the track `id` as the store holds them.
pub open spec fn stored_sessions<S>(db: Db<Record<S>>, id: Seq<char>) -> Seq<
    Stored<LoggedSession<S>>,
> {
    db.list_at(keys::sessions_at(id)).map_values(|record: Record<S>| read_session(record))
}

pub open spec fn read_session<S>(record: Record<S>) -> Stored<LoggedSession<S>> {
    match record {
        Record::Session(session) => Stored::Value(
            LoggedSession { ts_ms: session.ts_ms, load: session.load },
        ),
        _ => Stored::Unreadable,
    }
}

/// The skips of the track `id` as the store holds them.
pub open spec fn stored_skips<S>(db: Db<Record<S>>, id: Seq<char>) -> Seq<Stored<Skip>> {
    db.list_at(keys::skips_at(id)).map_values(|record: Record<S>| read_skip(record))
}

pub open spec fn read_skip<S>(record: Record<S>) -> Stored<Skip> {
    match record {
        Record::Skip(skip) => Stored::Value(skip),
        _ => Stored::Unreadable,
    }
}

proof fn lemma_values_of_front<V>(first: Stored<V>, rest: Seq<Stored<V>>)
    ensures
        first is Value ==> store::values_of(seq![first] + rest) == seq![first.value()->0]
            + store::values_of(rest),
{
    let reads = |stored: Stored<V>| stored is Value;
    let value = |stored: Stored<V>| stored.value()->0;
    Seq::filter_distributes_over_add(seq![first], rest, reads);
    reveal_with_fuel(Seq::filter, 2);
    assert(seq![first].drop_last() =~= Seq::<Stored<V>>::empty());
    if first is Value {
        assert(seq![first].filter(reads) =~= seq![first]);
        assert((seq![first] + rest.filter(reads)).map_values(value) =~= seq![value(first)]
            + rest.filter(reads).map_values(value));
    }
}

/// A session that was logged is read in front of those that were read before; the
/// sessions of other tracks, and all skips, are read as before.
pub proof fn lemma_session_then_read<S>(
    db: Db<Record<S>>,
    id: Seq<char>,
    session: StoredSession<S>,
    command: Command<Record<S>>,
    other: Seq<char>,
)
    requires
        logs_session(command, id, session),
        other != id,
    ensures
        store::values_of(stored_sessions(db.after(command), id)) == seq![
            LoggedSession { ts_ms: session.ts_ms, load: session.load },
        ] + store::values_of(stored_sessions(db, id)),
        stored_sessions(db.after(command), other) == stored_sessions(db, other),
        stored_skips(db.after(command), id) == stored_skips(db, id),
        stored_skips(db.after(command), other) == stored_skips(db, other),
{
    keys::lemma_keys_differ(other, id, 0, 0);
    keys::lemma_keys_differ(id, id, 1, 0);
    keys::lemma_keys_differ(other, id, 1, 0);
    assert(keys::track_keys(other)[0] == keys::sessions_at(other));
    assert(keys::track_keys(id)[0] == keys::sessions_at(id));
    assert(keys::track_keys(other)[1] == keys::skips_at(other));
    assert(keys::track_keys(id)[1] == keys::skips_at(id));
    let before = stored_sessions(db, id);
    let first = read_session(Record::<S>::Session(session));
    assert(stored_sessions(db.after(command), id) =~= seq![first] + before);
    lemma_values_of_front(first, before);
}

/// A skip that was logged is read in front of those that were read before; the skips of
/// other tracks, and all sessions, are read as before.
pub proof fn lemma_skip_then_read<S>(
    db: Db<Record<S>>,
    id: Seq<char>,
    skip: Skip,
    command: Command<Record<S>>,
    other: Seq<char>,
)
    requires
        logs_skip(command, id, skip),
        other != id,
    ensures
        store::values_of(stored_skips(db.after(command), id)) == seq![skip] + store::values_of(
            stored_skips(db, id),
        ),
        stored_skips(db.after(command), other) == stored_skips(db, other),
        stored_sessions(db.after(command), id) == stored_sessions(db, id),
        stored_sessions(db.after(command), other) == stored_sessions(db, other),
{
    keys::lemma_keys_differ(other, id, 1, 1);
    keys::lemma_keys_differ(id, id, 0, 1);
    keys::lemma_keys_differ(other, id, 0, 1);
    assert(keys::track_keys(other)[0] == keys::sessions_at(other));
    assert(keys::track_keys(id)[0] == keys::sessions_at(id));
    assert(keys::track_keys(other)[1] == keys::skips_at(other));
    assert(keys::track_keys(id)[1] == keys::skips_at(id));
    let before = stored_skips(db, id);
    let first = read_skip(Record::<S>::Skip(skip));
    assert(stored_skips(db.after(command), id) =~= seq![first] + before);
    lemma_values_of_front(first, before);
}

/// Only a track of one of the kinds can be logged, and a session that has all that any
/// kind needs can be logged for a track of each.
pub proof fn lemma_kinds_are_scoreable<S>(kind: Seq<char>, body: SessionBody<S>)
    ensures
        is_scoreable(kind, body) ==> tracks::is_kind(kind),
        tracks::is_kind(kind) && body.duration_min is Some && body.intensity is Some && (
        body.loe matches Some(level) && effort(level@) is Some) ==> is_scoreable(kind, body),
{
}

}
