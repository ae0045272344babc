//! The settings and the tracks: how they are read, stored and changed.

use vstd::prelude::*;

use crate::http::{Response, Status};
use crate::order;
use crate::order::{Rankable, Ranked};
use crate::store;
use crate::store::{Command, Db, Query, StoreFault, Stored};
use crate::systems::keys;
use crate::systems::records::{CreateTrack, Record, Settings, Track, UpdateTrack};
use crate::text;

verus! {

/// The answer to a request that the store has failed.
pub fn redis_bad<B>() -> (r: Response<B>)
    ensures
        r == Response::<B>::Bare(Status::BadGateway),
{
    Response::Bare(Status::BadGateway)
}

/// The answer to a request that writes and returns nothing, from what the store did.
pub fn written(outcome: Result<(), StoreFault>) -> (r: Response<()>)
    ensures
        r == Response::<()>::Bare(
            if outcome is Ok {
                Status::Success
            } else {
                Status::BadGateway
            },
        ),
{
    match outcome {
        Ok(()) => Response::Bare(Status::Success),
        Err(_) => redis_bad(),
    }
}

// --- Settings ---

pub fn settings_query() -> (r: Query)
    ensures
        r matches Query::Get { key } && key@ == keys::SETTINGS_KEY@,
{
    Query::Get { key: keys::SETTINGS_KEY.to_owned() }
}

/// `settings` are those that are stored, or the default ones where none are that read.
pub open spec fn are_settings(stored: Stored<Settings>, settings: Settings) -> bool {
    match stored.value() {
        Some(value) => settings == value,
        None => settings.is_default(),
    }
}

pub fn load_settings(stored: Stored<Settings>) -> (r: Settings)
    ensures
        are_settings(stored, r),
{
    match stored.into_value() {
        Some(settings) => settings,
        None => Settings::default(),
    }
}

/// The answer to a request for the settings.
pub fn get_settings(reply: Result<Stored<Settings>, StoreFault>) -> (r: Response<Settings>)
    ensures
        match reply {
            Ok(stored) => r matches Response::Json(settings) && are_settings(stored, settings),
            Err(_) => r == Response::<Settings>::Bare(Status::BadGateway),
        },
{
    match reply {
        Ok(stored) => Response::Json(load_settings(stored)),
        Err(_) => redis_bad(),
    }
}

/// `command` stores the settings.
pub open spec fn puts_settings<S>(command: Command<Record<S>>, settings: Settings) -> bool {
    command matches Command::Put { key, value } && key@ == keys::SETTINGS_KEY@ && value
        == Record::<S>::Settings(settings)
}

/// The command that stores the settings.
pub fn put_settings<'a, S>(settings: Settings) -> (r: Command<Record<'a, S>>)
    ensures
        puts_settings(r, settings),
{
    Command::Put { key: keys::SETTINGS_KEY.to_owned(), value: Record::Settings(settings) }
}

// --- Reading tracks ---

impl<S> DeepView for Track<S> {
    type V = Track<S>;

    open spec fn deep_view(&self) -> Track<S> {
        *self
    }
}

/// Tracks are ranked by the time of their creation.
impl<S> Ranked for Track<S> {
    open spec fn rank_le(a: Self, b: Self) -> bool {
        a.created_ms <= b.created_ms
    }

    proof fn rank_total(a: Self, b: Self) {
    }

    proof fn rank_transitive(a: Self, b: Self, c: Self) {
    }
}

impl<S> Rankable for Track<S> {
    fn rank_at_most(&self, other: &Self) -> bool {
        self.created_ms <= other.created_ms
    }
}

pub fn tracks_query() -> (r: Query)
    ensures
        r matches Query::HashAll { key } && key@ == keys::TRACKS_KEY@,
{
    Query::HashAll { key: keys::TRACKS_KEY.to_owned() }
}

pub fn track_query(id: &str) -> (r: Query)
    ensures
        r matches Query::HashGet { key, field } && key@ == keys::TRACKS_KEY@ && field@ == id@,
{
    Query::HashGet { key: keys::TRACKS_KEY.to_owned(), field: id.to_owned() }
}

/// The tracks that read, the oldest first.
pub open spec fn tracks_of<S>(raw: Seq<Stored<Track<S>>>) -> Seq<Track<S>> {
    order::stable_sorted(store::values_of(raw))
}

pub fn load_tracks<S>(raw: Vec<Stored<Track<S>>>) -> (r: Vec<Track<S>>)
    ensures
        r@ == tracks_of(raw@),
{
    let tracks = store::readable(raw);
    assert(tracks.deep_view() =~= tracks@);
    let r = order::stable_sort(tracks);
    assert(r.deep_view() =~= r@);
    r
}

/// The track, if there is one that reads.
pub fn load_track<S>(stored: Stored<Track<S>>) -> (r: Option<Track<S>>)
    ensures
        r == stored.value(),
{
    stored.into_value()
}

/// The answer to a request for all tracks.
pub fn list_tracks<S>(reply: Result<Vec<Stored<Track<S>>>, StoreFault>) -> (r: Response<
    Vec<Track<S>>,
>)
    ensures
        match reply {
            Ok(raw) => r matches Response::Json(tracks) && tracks@ == tracks_of(raw@),
            Err(_) => r == Response::<Vec<Track<S>>>::Bare(Status::BadGateway),
        },
{
    match reply {
        Ok(raw) => Response::Json(load_tracks(raw)),
        Err(_) => redis_bad(),
    }
}

/// The track that a request is about, or the answer to the request if there is none.
pub open spec fn found_track<S, B>(reply: Result<Stored<Track<S>>, StoreFault>) -> Result<
    Track<S>,
    Response<B>,
> {
    match reply {
        Ok(stored) => match stored.value() {
            Some(track) => Ok(track),
            None => Err(Response::Bare(Status::NotFound)),
        },
        Err(_) => Err(Response::Bare(Status::BadGateway)),
    }
}

pub fn find_track<S, B>(reply: Result<Stored<Track<S>>, StoreFault>) -> (r: Result<
    Track<S>,
    Response<B>,
>)
    ensures
        r == found_track::<S, B>(reply),
{
    match reply {
        Ok(stored) => match load_track(stored) {
            Some(track) => Ok(track),
            None => Err(Response::Bare(Status::NotFound)),
        },
        Err(_) => Err(redis_bad()),
    }
}

/// The answer to a request for a track.
pub open spec fn track_response<S>(reply: Result<Stored<Track<S>>, StoreFault>) -> Response<
    Track<S>,
> {
    match found_track::<S, Track<S>>(reply) {
        Ok(track) => Response::Json(track),
        Err(response) => response,
    }
}

pub fn get_track<S>(reply: Result<Stored<Track<S>>, StoreFault>) -> (r: Response<Track<S>>)
    ensures
        r == track_response(reply),
{
    match find_track(reply) {
        Ok(track) => Response::Json(track),
        Err(response) => response,
    }
}

// --- Creating, changing and removing tracks ---

/// The kinds of tracks.
pub open spec fn is_kind(kind: Seq<char>) -> bool {
    kind == "box"@ || kind == "check"@ || kind == "loe"@
}

/// `track` is what a request creates at the time `now_ms`.
pub open spec fn is_created<S>(body: CreateTrack<S>, now_ms: i64, track: Track<S>) -> bool {
    &&& track.id@ == keys::slug(body.name@)
    &&& track.name == body.name
    &&& track.kind == body.kind
    &&& track.tau_days == body.tau_days
    &&& track.mean_load == body.mean_load
    &&& track.period_days == body.period_days
    &&& track.alert_mult == body.alert_mult
    &&& track.weekdays == body.weekdays
    &&& track.unit_load == body.unit_load
    &&& track.created_ms == now_ms
}

/// The track that a request creates, or the answer to a request that is refused.
pub fn create_track<S>(body: CreateTrack<S>, now_ms: i64) -> (r: Result<
    Track<S>,
    Response<Track<S>>,
>)
    ensures
        match r {
            Ok(track) => {
                &&& keys::slug(body.name@).len() > 0
                &&& is_kind(body.kind@)
                &&& is_created(body, now_ms, track)
            },
            Err(response) => if keys::slug(body.name@).len() == 0 {
                response.says(Status::BadRequest, "name has no url-safe characters"@)
            } else {
                !is_kind(body.kind@) && response.says(
                    Status::BadRequest,
                    "kind must be box|check|loe"@,
                )
            },
        },
{
    let id = keys::slugify(body.name.as_str());
    if id.as_str().is_empty() {
        return Err(Response::text(Status::BadRequest, "name has no url-safe characters"));
    }
    let kind = body.kind.as_str();
    if !(text::same_text(kind, "box") || text::same_text(kind, "check") || text::same_text(
        kind,
        "loe",
    )) {
        return Err(Response::text(Status::BadRequest, "kind must be box|check|loe"));
    }
    Ok(
        Track {
            id,
            name: body.name,
            kind: body.kind,
            tau_days: body.tau_days,
            mean_load: body.mean_load,
            period_days: body.period_days,
            alert_mult: body.alert_mult,
            weekdays: body.weekdays,
            unit_load: body.unit_load,
            created_ms: now_ms,
        },
    )
}

/// `command` stores the track unless its id is taken.
pub open spec fn creates<S>(command: Command<Record<S>>, track: Track<S>) -> bool {
    command matches Command::HashSetNew { key, field, value } && key@ == keys::TRACKS_KEY@ && field
        == track.id && value == Record::Track(&track)
}

pub fn create_command<'a, S>(track: &'a Track<S>) -> (r: Command<Record<'a, S>>)
    ensures
        creates(r, *track),
{
    Command::HashSetNew {
        key: keys::TRACKS_KEY.to_owned(),
        field: track.id.clone(),
        value: Record::Track(track),
    }
}

/// The answer to a request that creates a track, from whether the store set it.
pub open spec fn created_response<S>(
    outcome: Result<bool, StoreFault>,
    track: Track<S>,
) -> Response<Track<S>> {
    match outcome {
        Ok(true) => Response::Json(track),
        Ok(false) => Response::Bare(Status::Conflict),
        Err(_) => Response::Bare(Status::BadGateway),
    }
}

pub fn created<S>(outcome: Result<bool, StoreFault>, track: Track<S>) -> (r: Response<Track<S>>)
    ensures
        r == created_response(outcome, track),
{
    match outcome {
        Ok(true) => Response::Json(track),
        Ok(false) => Response::Bare(Status::Conflict),
        Err(_) => redis_bad(),
    }
}

/// The track with the fields that can change as the request has them.
pub open spec fn updated<S>(track: Track<S>, body: UpdateTrack<S>) -> Track<S> {
    Track {
        id: track.id,
        name: body.name,
        kind: track.kind,
        tau_days: body.tau_days,
        mean_load: body.mean_load,
        period_days: body.period_days,
        alert_mult: body.alert_mult,
        weekdays: body.weekdays,
        unit_load: body.unit_load,
        created_ms: track.created_ms,
    }
}

/// The track that a request stores in place of one, or the answer if there is none.
pub fn update_track<S>(reply: Result<Stored<Track<S>>, StoreFault>, body: UpdateTrack<S>) -> (r:
    Result<Track<S>, Response<()>>)
    ensures
        r == match found_track::<S, ()>(reply) {
            Ok(track) => Ok(updated(track, body)),
            Err(response) => Err(response),
        },
{
    match find_track(reply) {
        Ok(track) => Ok(
            Track {
                id: track.id,
                name: body.name,
                kind: track.kind,
                tau_days: body.tau_days,
                mean_load: body.mean_load,
                period_days: body.period_days,
                alert_mult: body.alert_mult,
                weekdays: body.weekdays,
                unit_load: body.unit_load,
                created_ms: track.created_ms,
            },
        ),
        Err(response) => Err(response),
    }
}

/// `command` stores the track under `id`.
pub open spec fn replaces<S>(command: Command<Record<S>>, id: Seq<char>, track: Track<S>) -> bool {
    command matches Command::HashSet { key, field, value } && key@ == keys::TRACKS_KEY@ && field@
        == id && value == Record::Track(&track)
}

pub fn update_command<'a, S>(id: &str, track: &'a Track<S>) -> (r: Command<Record<'a, S>>)
    ensures
        replaces(r, id@, *track),
{
    Command::HashSet {
        key: keys::TRACKS_KEY.to_owned(),
        field: id.to_owned(),
        value: Record::Track(track),
    }
}

/// `command` removes the track `id`.
pub open spec fn removes_track<S>(command: Command<Record<S>>, id: Seq<char>) -> bool {
    command matches Command::HashDelete { key, field } && key@ == keys::TRACKS_KEY@ && field@ == id
}

/// `command` removes all else that is kept of the track `id`.
pub open spec fn removes_data<S>(command: Command<Record<S>>, id: Seq<char>) -> bool {
    &&& command matches Command::Delete { keys: all }
    &&& all@.len() == 4
    &&& forall|i: int| 0 <= i < 4 ==> (#[trigger] all@[i])@ == keys::track_keys(id)[i]
}

/// The command that removes a track.
pub fn delete_track<'a, S>(id: &str) -> (r: Command<Record<'a, S>>)
    ensures
        removes_track(r, id@),
{
    Command::HashDelete { key: keys::TRACKS_KEY.to_owned(), field: id.to_owned() }
}

/// The command that removes all else that is kept of a track once the track itself is
/// removed, or the answer if the store has failed at that.
pub fn delete_track_data<'a, S>(id: &str, outcome: Result<(), StoreFault>) -> (r: Result<
    Command<Record<'a, S>>,
    Response<()>,
>)
    ensures
        match outcome {
            Ok(_) => r matches Ok(command) && removes_data(command, id@),
            Err(_) => r == Err::<Command<Record<S>>, _>(Response::<()>::Bare(Status::BadGateway)),
        },
{
    if outcome.is_err() {
        return Err(redis_bad());
    }
    let mut all: Vec<String> = Vec::new();
    all.push(keys::sessions_key(id));
    all.push(keys::skips_key(id));
    all.push(keys::scheduled_key(id));
    all.push(keys::last_alert_key(id));
    Ok(Command::Delete { keys: all })
}

// --- Laws ---

/// The settings as the store holds them.
pub open spec fn stored_settings<S>(db: Db<Record<S>>) -> Stored<Settings> {
    match db.value_at(keys::SETTINGS_KEY@) {
        Some(Record::Settings(settings)) => Stored::Value(settings),
        Some(_) => Stored::Unreadable,
        None => Stored::Missing,
    }
}

/// A track as the store holds it.
pub open spec fn stored_track<S>(db: Db<Record<S>>, id: Seq<char>) -> Stored<Track<S>> {
    match db.field_at(keys::TRACKS_KEY@, id) {
        Some(Record::Track(track)) => Stored::Value(*track),
        Some(_) => Stored::Unreadable,
        None => Stored::Missing,
    }
}

/// The answer to a request for the track `id` while the store holds `db`.
pub open spec fn read_track<S>(db: Db<Record<S>>, id: Seq<char>) -> Response<Track<S>> {
    track_response(Ok(stored_track(db, id)))
}

/// Settings that were stored are those that are read from then on; until any are stored
/// the default ones are.
pub proof fn lemma_settings_read_back<S>(
    db: Db<Record<S>>,
    command: Command<Record<S>>,
    stored: Settings,
    read: Settings,
)
    requires
        puts_settings(command, stored),
    ensures
        are_settings(stored_settings(db.after(command)), read) ==> read == stored,
        !db.values.contains_key(keys::SETTINGS_KEY@) && are_settings(stored_settings(db), read)
            ==> read.is_default(),
{
}

/// A track that was created under a free id is read back as it was created; the other
/// tracks are read as before.
pub proof fn lemma_create_then_get<S>(
    db: Db<Record<S>>,
    command: Command<Record<S>>,
    track: Track<S>,
    other: Seq<char>,
)
    requires
        creates(command, track),
        !db.fields.contains_key((keys::TRACKS_KEY@, track.id@)),
        other != track.id@,
    ensures
        created_response(Ok(db.sets_new(command)), track) == Response::Json(track),
        read_track(db.after(command), track.id@) == Response::Json(track),
        read_track(db.after(command), other) == read_track(db, other),
{
}

/// To create a track under an id that is taken is a conflict, and changes nothing.
pub proof fn lemma_create_taken<S>(
    db: Db<Record<S>>,
    command: Command<Record<S>>,
    track: Track<S>,
)
    requires
        creates(command, track),
        db.fields.contains_key((keys::TRACKS_KEY@, track.id@)),
    ensures
        created_response(Ok(db.sets_new(command)), track) == Response::<Track<S>>::Bare(
            Status::Conflict,
        ),
        db.after(command) == db,
{
}

/// Two names with the same slug cannot both have a track: the second is a conflict.
pub proof fn lemma_create_twice<S>(
    db: Db<Record<S>>,
    first_body: CreateTrack<S>,
    second_body: CreateTrack<S>,
    first: Track<S>,
    second: Track<S>,
    first_ms: i64,
    second_ms: i64,
    first_command: Command<Record<S>>,
    second_command: Command<Record<S>>,
)
    requires
        keys::slug(first_body.name@) == keys::slug(second_body.name@),
        is_created(first_body, first_ms, first),
        is_created(second_body, second_ms, second),
        creates(first_command, first),
        creates(second_command, second),
    ensures
        created_response(Ok(db.after(first_command).sets_new(second_command)), second)
            == Response::<Track<S>>::Bare(Status::Conflict),
        db.after(first_command).after(second_command) == db.after(first_command),
{
}

/// A change of a track is read back, and keeps its id, its kind and the time of its
/// creation; the other tracks are read as before.
pub proof fn lemma_update_then_get<S>(
    db: Db<Record<S>>,
    id: Seq<char>,
    track: Track<S>,
    body: UpdateTrack<S>,
    command: Command<Record<S>>,
    other: Seq<char>,
)
    requires
        read_track(db, id) == Response::Json(track),
        replaces(command, id, updated(track, body)),
        other != id,
    ensures
        read_track(db.after(command), id) == Response::Json(updated(track, body)),
        updated(track, body).id == track.id,
        updated(track, body).kind == track.kind,
        updated(track, body).created_ms == track.created_ms,
        read_track(db.after(command), other) == read_track(db, other),
{
}

/// Whether nothing is kept under a key.
pub open spec fn is_free<V>(db: Db<V>, key: Seq<char>) -> bool {
    &&& !db.values.contains_key(key)
    &&& !db.lists.contains_key(key)
    &&& forall|field: Seq<char>| !(#[trigger] db.fields.contains_key((key, field)))
}

/// Whether two stores keep the same under a key.
pub open spec fn same_at<V>(a: Db<V>, b: Db<V>, key: Seq<char>) -> bool {
    &&& a.value_at(key) == b.value_at(key)
    &&& a.list_at(key) == b.list_at(key)
    &&& forall|field: Seq<char>| #[trigger] a.field_at(key, field) == b.field_at(key, field)
}

/// Nothing is left of a track that was removed, and all else is kept.
pub proof fn lemma_delete_leaves_nothing<S>(
    db: Db<Record<S>>,
    first: Command<Record<S>>,
    second: Command<Record<S>>,
    id: Seq<char>,
    other: Seq<char>,
)
    requires
        removes_track(first, id),
        removes_data(second, id),
        other != id,
    ensures
        read_track(db.after(first).after(second), id) == Response::<Track<S>>::Bare(
            Status::NotFound,
        ),
        forall|i: int|
            0 <= i < 4 ==> is_free(
                db.after(first).after(second),
                #[trigger] keys::track_keys(id)[i],
            ),
        read_track(db.after(first).after(second), other) == read_track(db, other),
        forall|i: int|
            0 <= i < 4 ==> same_at(
                db.after(first).after(second),
                db,
                #[trigger] keys::track_keys(other)[i],
            ),
        stored_settings(db.after(first).after(second)) == stored_settings(db),
{
    let all = second->Delete_keys@;
    let after = db.after(first).after(second);
    assert forall|i: int| 0 <= i < 4 implies #[trigger] Db::<Record<S>>::named(
        all,
        keys::track_keys(id)[i],
    ) by {
        assert(all[i]@ == keys::track_keys(id)[i]);
    }
    assert forall|key: Seq<char>| #[trigger]
        Db::<Record<S>>::named(all, key) implies key != keys::TRACKS_KEY@ && key
        != keys::SETTINGS_KEY@ by {
        let i = choose|i: int| 0 <= i < all.len() && (#[trigger] all[i])@ == key;
        keys::lemma_keys_differ(id, id, i, i);
    }
    assert forall|i: int| 0 <= i < 4 implies is_free(after, #[trigger] keys::track_keys(id)[i]) by {
        assert(Db::<Record<S>>::named(all, keys::track_keys(id)[i]));
    }
    assert forall|i: int| 0 <= i < 4 implies same_at(
        after,
        db,
        #[trigger] keys::track_keys(other)[i],
    ) by {
        let key = keys::track_keys(other)[i];
        keys::lemma_keys_differ(other, id, i, i);
        if Db::<Record<S>>::named(all, key) {
            let j = choose|j: int| 0 <= j < all.len() && (#[trigger] all[j])@ == key;
            keys::lemma_keys_differ(other, id, i, j);
        }
    }
}

/// To remove a track twice is to remove it once.
pub proof fn lemma_delete_idempotent<S>(
    db: Db<Record<S>>,
    first: Command<Record<S>>,
    second: Command<Record<S>>,
    id: Seq<char>,
)
    requires
        removes_track(first, id),
        removes_data(second, id),
    ensures
        db.after(first).after(second).after(first).after(second) == db.after(first).after(second),
{
    let once = db.after(first).after(second);
    let twice = once.after(first).after(second);
    assert(twice.values =~= once.values);
    assert(twice.fields =~= once.fields);
    assert(twice.lists =~= once.lists);
}

/// All tracks are listed, the oldest first.
pub proof fn lemma_tracks_oldest_first<S>(raw: Seq<Stored<Track<S>>>)
    ensures
        tracks_of(raw).to_multiset() == store::values_of(raw).to_multiset(),
        forall|i: int, j: int|
            0 <= i <= j < tracks_of(raw).len() ==> (#[trigger] tracks_of(raw)[i]).created_ms <= (
            #[trigger] tracks_of(raw)[j]).created_ms,
{
    order::lemma_stable_sort_exists(store::values_of(raw));
    order::lemma_stable_sort_multiset(store::values_of(raw));
    assert forall|i: int, j: int| 0 <= i <= j < tracks_of(raw).len() implies (
    #[trigger] tracks_of(raw)[i]).created_ms <= (#[trigger] tracks_of(raw)[j]).created_ms by {
        assert(Track::<S>::rank_le(tracks_of(raw)[i], tracks_of(raw)[j]));
    }
}

}
