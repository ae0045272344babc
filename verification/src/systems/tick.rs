//! The pager's look at the tracks: past the hour for it, it notes what has come due
//! today and pages once a day for each track that has fallen behind. A look is a row of
//! steps: each takes what the last action led to and says what to do next.

use vstd::prelude::*;

use crate::store;
use crate::store::{Command, Db, Query, Stored};
use crate::systems::adherence;
use crate::systems::calendar;
use crate::systems::calendar::Now;
use crate::systems::keys;
use crate::systems::model;
use crate::systems::model::Computed;
use crate::systems::pager;
use crate::systems::pager::Alert;
use crate::systems::records::{LoggedSession, Record, Scheduled, Settings, Skip, Track};
use crate::systems::scalar::Scalar;
use crate::systems::sessions;
use crate::systems::tracks;
use crate::text;

verus! {

/// The pager looks at the tracks this often.
pub const TICK_SECS: u64 = 900;

/// What a look carries along.
pub struct Run<S> {
    pub settings: Settings,
    pub now: Now,
    /// The tracks that it has yet to come to.
    pub rest: Vec<Track<S>>,
}

/// Where a look is.
pub enum TickState<S> {
    /// The settings are being read.
    ReadingSettings,
    /// The tracks are being read.
    ReadingTracks { settings: Settings, now: Now },
    /// Whether today's occurrence of a track is noted is being read.
    CheckingDue { run: Run<S>, track: Track<S> },
    /// Today's occurrence of a track is being noted.
    NotingDue { run: Run<S>, track: Track<S> },
    /// The sessions of a track are being read.
    ReadingSessions { run: Run<S>, track: Track<S> },
    /// The skips of a track are being read.
    ReadingSkips { run: Run<S>, track: Track<S>, sessions: Vec<LoggedSession<S>> },
    /// The day of the last page of the track `id` is being read.
    ReadingLastPage { run: Run<S>, id: String, alert: Alert },
    /// A page for the track `id` is being sent.
    Paging { run: Run<S>, id: String },
    /// The day of a page is being noted.
    NotingPage { run: Run<S> },
    Done,
}

/// What the last action led to.
pub enum TickEvent<S> {
    /// The settings, and the clock after they were read.
    Settings(Stored<Settings>, Now),
    Tracks(Vec<Stored<Track<S>>>),
    Has(bool),
    Written,
    Sessions(Vec<Stored<LoggedSession<S>>>),
    Skips(Vec<Stored<Skip>>),
    LastPage(Option<String>),
    /// The page was sent, or given up.
    Paged,
    /// The store has failed.
    Failed,
}

/// What to do next.
pub enum TickAction<'a, S> {
    Ask(Query),
    Write(Command<Record<'a, S>>),
    Page(Alert),
    Stop,
}

impl<S> Run<S> {
    pub open spec fn is(self, settings: Settings, now: Now, rest: Seq<Track<S>>) -> bool {
        self.settings == settings && self.now == now && self.rest@ == rest
    }
}

impl<S> TickState<S> {
    /// The clock that it carries, if any, is a reading.
    pub open spec fn valid(self) -> bool {
        match self {
            TickState::ReadingTracks { now, .. } => now.valid(),
            TickState::CheckingDue { run, .. } => run.now.valid(),
            TickState::NotingDue { run, .. } => run.now.valid(),
            TickState::ReadingSessions { run, .. } => run.now.valid(),
            TickState::ReadingSkips { run, .. } => run.now.valid(),
            TickState::ReadingLastPage { run, .. } => run.now.valid(),
            TickState::Paging { run, .. } => run.now.valid(),
            TickState::NotingPage { run } => run.now.valid(),
            _ => true,
        }
    }
}

impl<S> TickEvent<S> {
    /// The clock that it brings, if any, is a reading.
    pub open spec fn valid(self) -> bool {
        self matches TickEvent::Settings(_, now) ==> now.valid()
    }
}

/// Nothing is left to do.
pub open spec fn ends<S>(next: TickState<S>, action: TickAction<S>) -> bool {
    next is Done && action is Stop
}

/// The sessions of `track` are read next.
pub open spec fn reads_sessions<S>(
    run: Run<S>,
    track: Track<S>,
    rest: Seq<Track<S>>,
    next: TickState<S>,
    action: TickAction<S>,
) -> bool {
    &&& next matches TickState::ReadingSessions { run: carried, track: read }
    &&& carried.is(run.settings, run.now, rest)
    &&& read == track
    &&& action matches TickAction::Ask(Query::ListAll { key })
    &&& key@ == keys::sessions_at(track.id@)
}

/// The look goes on with the first of the tracks that it has yet to come to, or ends if
/// there is none. If an occurrence of the track is due today, it is first seen to that
/// it is noted.
pub open spec fn goes_on<S>(run: Run<S>, next: TickState<S>, action: TickAction<S>) -> bool {
    let rest = run.rest@;
    if rest.len() == 0 {
        ends(next, action)
    } else if adherence::is_due(rest[0].weekdays@, run.now.day as int) {
        &&& next matches TickState::CheckingDue { run: carried, track }
        &&& carried.is(run.settings, run.now, rest.drop_first())
        &&& track == rest[0]
        &&& action matches TickAction::Ask(Query::HashHas { key, field })
        &&& key@ == keys::scheduled_at(track.id@)
        &&& field@ == calendar::day_text(run.now.day as int)
    } else {
        reads_sessions(run, rest[0], rest.drop_first(), next, action)
    }
}

/// With these settings, pages are sent at the time `now`.
pub open spec fn is_awake(settings: Settings, now: Now) -> bool {
    !text::is_blank(settings.ntfy_url@) && now.hour >= settings.alert_hour
}

/// The step from the reading of the settings.
pub open spec fn settings_step<S>(
    stored: Stored<Settings>,
    now: Now,
    next: TickState<S>,
    action: TickAction<S>,
) -> bool {
    exists|settings: Settings| #[trigger]
        tracks::are_settings(stored, settings) && if is_awake(settings, now) {
            &&& next == (TickState::<S>::ReadingTracks { settings, now })
            &&& action matches TickAction::Ask(Query::HashAll { key })
            &&& key@ == keys::TRACKS_KEY@
        } else {
            ends(next, action)
        }
}

/// The step from the reading of the skips, with `c` computed of the track.
pub open spec fn computed_step<S: Scalar>(
    run: Run<S>,
    track: Track<S>,
    c: Computed<S>,
    next: TickState<S>,
    action: TickAction<S>,
) -> bool {
    exists|paging: bool| #[trigger]
        pager::is_paging(c, paging) && if paging {
            &&& next matches TickState::ReadingLastPage { run: carried, id, alert }
            &&& carried == run
            &&& id == track.id
            &&& pager::is_alert(run.settings, track, c, alert)
            &&& action matches TickAction::Ask(Query::Get { key })
            &&& key@ == keys::last_alert_at(track.id@)
        } else {
            goes_on(run, next, action)
        }
}

/// The step from `state` on `event` leads to `next` and `action`.
pub open spec fn tick_step_to<S: Scalar>(
    state: TickState<S>,
    event: TickEvent<S>,
    next: TickState<S>,
    action: TickAction<S>,
) -> bool {
    match (state, event) {
        (TickState::ReadingSettings, TickEvent::Settings(stored, now)) => settings_step(
            stored,
            now,
            next,
            action,
        ),
        (TickState::ReadingTracks { settings, now }, TickEvent::Tracks(raw)) => exists|run: Run<S>|
            run.is(settings, now, tracks::tracks_of(raw@)) && #[trigger] goes_on(run, next, action),
        (TickState::CheckingDue { run, track }, TickEvent::Has(noted)) => if noted {
            reads_sessions(run, track, run.rest@, next, action)
        } else {
            &&& next == (TickState::<S>::NotingDue { run, track })
            &&& action matches TickAction::Write(Command::HashSet { key, field, value })
            &&& key@ == keys::scheduled_at(track.id@)
            &&& field@ == calendar::day_text(run.now.day as int)
            &&& value == Record::<S>::Scheduled(Scheduled { materialized_ms: run.now.ms })
        },
        (TickState::NotingDue { run, track }, TickEvent::Written) => reads_sessions(
            run,
            track,
            run.rest@,
            next,
            action,
        ),
        (TickState::ReadingSessions { run, track }, TickEvent::Sessions(raw)) => {
            &&& next matches TickState::ReadingSkips { run: carried, track: read, sessions }
            &&& carried == run
            &&& read == track
            &&& sessions@ == store::values_of(raw@)
            &&& action matches TickAction::Ask(Query::ListAll { key })
            &&& key@ == keys::skips_at(track.id@)
        },
        (TickState::ReadingSkips { run, track, sessions }, TickEvent::Skips(raw)) => exists|
            c: Computed<S>,
        |
            model::is_computed_now(
                track,
                sessions@,
                store::values_of(raw@),
                run.settings,
                run.now,
                c,
            ) && #[trigger] computed_step(run, track, c, next, action),
        (TickState::ReadingLastPage { run, id, alert }, TickEvent::LastPage(day)) => if day matches Some(
            day,
        ) && day@ == calendar::day_text(run.now.day as int) {
            goes_on(run, next, action)
        } else {
            next == (TickState::<S>::Paging { run, id }) && action == TickAction::<S>::Page(alert)
        },
        (TickState::Paging { run, id }, TickEvent::Paged) => {
            &&& next == (TickState::<S>::NotingPage { run })
            &&& action matches TickAction::Write(Command::Put { key, value })
            &&& key@ == keys::last_alert_at(id@)
            &&& value matches Record::Day(day)
            &&& day@ == calendar::day_text(run.now.day as int)
        },
        (TickState::NotingPage { run }, TickEvent::Written) => goes_on(run, next, action),
        // The store has failed, or the event does not belong to the state.
        _ => ends(next, action),
    }
}

fn read_log<'a, S>(run: Run<S>, track: Track<S>) -> (r: (TickState<S>, TickAction<'a, S>))
    ensures
        reads_sessions(run, track, run.rest@, r.0, r.1),
{
    let query = sessions::sessions_query(track.id.as_str());
    (TickState::ReadingSessions { run, track }, TickAction::Ask(query))
}

fn go_on<'a, S>(run: Run<S>) -> (r: (TickState<S>, TickAction<'a, S>))
    requires
        run.now.valid(),
    ensures
        goes_on(run, r.0, r.1),
{
    let Run { settings, now, mut rest } = run;
    if rest.len() == 0 {
        return (TickState::Done, TickAction::Stop);
    }
    let track = rest.remove(0);
    assert(rest@ =~= run.rest@.drop_first());
    let run = Run { settings, now, rest };
    if calendar::on_weekday(&track.weekdays, now.day) {
        let key = keys::scheduled_key(track.id.as_str());
        (
            TickState::CheckingDue { run, track },
            TickAction::Ask(Query::HashHas { key, field: calendar::write_day(now.day) }),
        )
    } else {
        read_log(run, track)
    }
}

/// The first step of a look.
pub fn start_tick<'a, S>() -> (r: (TickState<S>, TickAction<'a, S>))
    ensures
        r.0 is ReadingSettings,
        r.1 matches TickAction::Ask(Query::Get { key }) && key@ == keys::SETTINGS_KEY@,
{
    (TickState::ReadingSettings, TickAction::Ask(tracks::settings_query()))
}

fn step_computed<'a, S: Scalar>(run: Run<S>, track: Track<S>, c: Computed<S>) -> (r: (
    TickState<S>,
    TickAction<'a, S>,
))
    requires
        run.now.valid(),
    ensures
        computed_step(run, track, c, r.0, r.1),
{
    let paging = pager::should_page(&c);
    assert(pager::is_paging(c, paging));
    if !paging {
        return go_on(run);
    }
    let alert = pager::build_alert(&run.settings, &track, &c);
    let key = keys::last_alert_key(track.id.as_str());
    (
        TickState::ReadingLastPage { run, id: track.id, alert },
        TickAction::Ask(Query::Get { key }),
    )
}

/// The next step of a look.
pub fn tick_once<'a, S: Scalar>(state: TickState<S>, event: TickEvent<S>) -> (r: (
    TickState<S>,
    TickAction<'a, S>,
))
    requires
        state.valid(),
        event.valid(),
    ensures
        tick_step_to(state, event, r.0, r.1),
        r.0.valid(),
{
    match (state, event) {
        (TickState::ReadingSettings, TickEvent::Settings(stored, now)) => {
            let settings = tracks::load_settings(stored);
            assert(tracks::are_settings(stored, settings));
            if text::blank(settings.ntfy_url.as_str()) || now.hour < settings.alert_hour {
                (TickState::Done, TickAction::Stop)
            } else {
                (
                    TickState::ReadingTracks { settings, now },
                    TickAction::Ask(tracks::tracks_query()),
                )
            }
        },
        (TickState::ReadingTracks { settings, now }, TickEvent::Tracks(raw)) => {
            let rest = tracks::load_tracks(raw);
            let run = Run { settings, now, rest };
            let r = go_on(run);
            assert(run.is(settings, now, tracks::tracks_of(raw@)));
            assert(goes_on(run, r.0, r.1));
            r
        },
        (TickState::CheckingDue { run, track }, TickEvent::Has(noted)) => if noted {
            read_log(run, track)
        } else {
            let key = keys::scheduled_key(track.id.as_str());
            let field = calendar::write_day(run.now.day);
            let value = Record::Scheduled(Scheduled { materialized_ms: run.now.ms });
            (
                TickState::NotingDue { run, track },
                TickAction::Write(Command::HashSet { key, field, value }),
            )
        },
        (TickState::NotingDue { run, track }, TickEvent::Written) => read_log(run, track),
        (TickState::ReadingSessions { run, track }, TickEvent::Sessions(raw)) => {
            let query = sessions::skips_query(track.id.as_str());
            (
                TickState::ReadingSkips { run, track, sessions: sessions::load_sessions(raw) },
                TickAction::Ask(query),
            )
        },
        (TickState::ReadingSkips { run, track, sessions: logged }, TickEvent::Skips(raw)) => {
            let skips = sessions::load_skips(raw);
            let c = model::compute(&track, &logged, &skips, &run.settings, run.now);
            step_computed(run, track, c)
        },
        (TickState::ReadingLastPage { run, id, alert }, TickEvent::LastPage(day)) => {
            let today = calendar::write_day(run.now.day);
            let paged_today = match &day {
                Some(day) => text::same_text(day.as_str(), today.as_str()),
                None => false,
            };
            if paged_today {
                go_on(run)
            } else {
                (TickState::Paging { run, id }, TickAction::Page(alert))
            }
        },
        (TickState::Paging { run, id }, TickEvent::Paged) => {
            let key = keys::last_alert_key(id.as_str());
            let day = calendar::write_day(run.now.day);
            (
                TickState::NotingPage { run },
                TickAction::Write(Command::Put { key, value: Record::Day(day) }),
            )
        },
        (TickState::NotingPage { run }, TickEvent::Written) => go_on(run),
        _ => (TickState::Done, TickAction::Stop),
    }
}

// --- Laws ---

/// Nothing is paged where the topic is blank, before the hour for it, or while no
/// settings are stored: the look ends once the settings are read.
pub proof fn lemma_asleep<S: Scalar>(
    stored: Stored<Settings>,
    now: Now,
    next: TickState<S>,
    action: TickAction<S>,
)
    requires
        tick_step_to(
            TickState::ReadingSettings,
            TickEvent::<S>::Settings(stored, now),
            next,
            action,
        ),
        stored.value() matches Some(settings) ==> !is_awake(settings, now),
    ensures
        ends(next, action),
{
}

/// A failure of the store ends the look: nothing is paged on what was read in part.
pub proof fn lemma_fault_ends<S: Scalar>(
    state: TickState<S>,
    next: TickState<S>,
    action: TickAction<S>,
)
    requires
        tick_step_to(state, TickEvent::Failed, next, action),
    ensures
        ends(next, action),
{
}

/// The last page of a track is asked for only once what is computed of the track calls
/// for a page, and the page says what was computed.
pub proof fn lemma_pages_are_called_for<S: Scalar>(
    state: TickState<S>,
    event: TickEvent<S>,
    next: TickState<S>,
    action: TickAction<S>,
)
    requires
        tick_step_to(state, event, next, action),
        next is ReadingLastPage,
    ensures
        next matches TickState::ReadingLastPage { run, id, alert } && {
            &&& state matches TickState::ReadingSkips { track, sessions, .. }
            &&& event matches TickEvent::Skips(raw)
            &&& id == track.id
            &&& exists|c: Computed<S>| #[trigger]
                model::is_computed_now(
                    track,
                    sessions@,
                    store::values_of(raw@),
                    run.settings,
                    run.now,
                    c,
                ) && pager::is_paging(c, true) && pager::is_alert(run.settings, track, c, alert)
        },
{
}

/// A page is sent only for a track whose last page was not today, and it is the page
/// that was called for.
pub proof fn lemma_page_not_sent_today<S: Scalar>(
    state: TickState<S>,
    event: TickEvent<S>,
    next: TickState<S>,
    action: TickAction<S>,
)
    requires
        tick_step_to(state, event, next, action),
        action is Page,
    ensures
        state matches TickState::ReadingLastPage { run, alert, .. } && {
            &&& action == TickAction::<S>::Page(alert)
            &&& event matches TickEvent::LastPage(day)
            &&& day matches Some(day) ==> day@ != calendar::day_text(run.now.day as int)
        },
{
}

/// `day` is what the store holds as the day of the last page of the track `id`.
pub open spec fn is_last_page<S>(db: Db<Record<S>>, id: Seq<char>, day: Option<String>) -> bool {
    match db.value_at(keys::last_alert_at(id)) {
        Some(Record::Day(held)) => day == Some(held),
        Some(_) => false,
        None => day is None,
    }
}

/// A track is paged at most once a day: after the day of a page is noted, no look on
/// the same day pages for the track again.
pub proof fn lemma_one_page_a_day<S: Scalar>(
    db: Db<Record<S>>,
    paging: TickState<S>,
    noting: TickState<S>,
    command: Command<Record<S>>,
    later: TickState<S>,
    day: Option<String>,
    next: TickState<S>,
    action: TickAction<S>,
)
    requires
        paging is Paging,
        tick_step_to(paging, TickEvent::Paged, noting, TickAction::Write(command)),
        later is ReadingLastPage,
        later->ReadingLastPage_id@ == paging->Paging_id@,
        later->ReadingLastPage_run.now.day == paging->Paging_run.now.day,
        is_last_page(db.after(command), later->ReadingLastPage_id@, day),
        tick_step_to(later, TickEvent::LastPage(day), next, action),
    ensures
        action !is Page,
{
}

/// An occurrence that has come due is noted once: after it is noted, it is found.
pub proof fn lemma_due_noted_once<S: Scalar>(
    db: Db<Record<S>>,
    checking: TickState<S>,
    noting: TickState<S>,
    command: Command<Record<S>>,
    later: TickState<S>,
    has: bool,
    next: TickState<S>,
    action: TickAction<S>,
)
    requires
        checking is CheckingDue,
        tick_step_to(checking, TickEvent::Has(false), noting, TickAction::Write(command)),
        later is CheckingDue,
        later->CheckingDue_track.id@ == checking->CheckingDue_track.id@,
        later->CheckingDue_run.now.day == checking->CheckingDue_run.now.day,
        has == (db.after(command).field_at(
            keys::scheduled_at(later->CheckingDue_track.id@),
            calendar::day_text(later->CheckingDue_run.now.day as int),
        ) is Some),
        tick_step_to(later, TickEvent::Has(has), next, action),
    ensures
        action !is Write,
{
}

/// How much is left of a look once the tracks are read.
pub open spec fn left<S>(state: TickState<S>) -> nat {
    match state {
        TickState::CheckingDue { run, .. } => 8 * run.rest@.len() + 7,
        TickState::NotingDue { run, .. } => 8 * run.rest@.len() + 6,
        TickState::ReadingSessions { run, .. } => 8 * run.rest@.len() + 5,
        TickState::ReadingSkips { run, .. } => 8 * run.rest@.len() + 4,
        TickState::ReadingLastPage { run, .. } => 8 * run.rest@.len() + 3,
        TickState::Paging { run, .. } => 8 * run.rest@.len() + 2,
        TickState::NotingPage { run } => 8 * run.rest@.len() + 1,
        _ => 0,
    }
}

/// A look comes to its end: each step after the reading of the tracks leaves less of it,
/// and the readings before are not made again.
pub proof fn lemma_tick_advances<S: Scalar>(
    state: TickState<S>,
    event: TickEvent<S>,
    next: TickState<S>,
    action: TickAction<S>,
)
    requires
        tick_step_to(state, event, next, action),
    ensures
        next is Done <==> action is Stop,
        next !is ReadingSettings,
        next is ReadingTracks ==> state is ReadingSettings,
        state !is ReadingSettings && state !is ReadingTracks && next !is Done ==> left(next) < left(
            state,
        ),
{
}

/// The tracks that a look has yet to compute, in the order in which it comes to them.
pub open spec fn ahead<S>(state: TickState<S>) -> Seq<Track<S>> {
    match state {
        TickState::CheckingDue { run, track } => seq![track] + run.rest@,
        TickState::NotingDue { run, track } => seq![track] + run.rest@,
        TickState::ReadingSessions { run, track } => seq![track] + run.rest@,
        TickState::ReadingSkips { run, track, .. } => seq![track] + run.rest@,
        TickState::ReadingLastPage { run, .. } => run.rest@,
        TickState::Paging { run, .. } => run.rest@,
        TickState::NotingPage { run } => run.rest@,
        _ => Seq::empty(),
    }
}

/// A look comes to every track that reads, the oldest first, and leaves each only once
/// it has been computed.
pub proof fn lemma_no_track_is_passed_over<S: Scalar>(
    state: TickState<S>,
    event: TickEvent<S>,
    next: TickState<S>,
    action: TickAction<S>,
)
    requires
        tick_step_to(state, event, next, action),
    ensures
        state is ReadingTracks && event is Tracks ==> ahead(next) == tracks::tracks_of(
            event->Tracks_0@,
        ),
        state !is ReadingTracks && next !is Done ==> ahead(next) == ahead(state) || (
        state is ReadingSkips && ahead(next) == ahead(state).drop_first()),
{
    if state is ReadingTracks && event is Tracks {
        let all = tracks::tracks_of(event->Tracks_0@);
        if all.len() > 0 {
            assert(seq![all[0]] + all.drop_first() =~= all);
        } else {
            assert(ahead(next) =~= all);
        }
    } else if let TickState::ReadingSkips { run, track, .. } = state {
        let rest = run.rest@;
        assert((seq![track] + rest).drop_first() =~= rest);
        if rest.len() > 0 {
            assert(seq![rest[0]] + rest.drop_first() =~= rest);
        }
    } else if let TickState::ReadingLastPage { run, .. } = state {
        let rest = run.rest@;
        if rest.len() > 0 {
            assert(seq![rest[0]] + rest.drop_first() =~= rest);
        }
    } else if let TickState::NotingPage { run } = state {
        let rest = run.rest@;
        if rest.len() > 0 {
            assert(seq![rest[0]] + rest.drop_first() =~= rest);
        }
    }
}

}
