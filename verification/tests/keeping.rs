//! What is written and then read: the commands done on a store in memory.

use std::collections::HashMap;

use red::countdowns;
use red::http::Response;
use red::store::{Command, Stored};
use red::systems::calendar::{now, write_day, Now};
use red::systems::keys::{last_alert_key, scheduled_key, sessions_key, skips_key, TRACKS_KEY};
use red::systems::records::{
    CreateTrack, Record, SessionBody, Settings, Skip, SkipBody, Track, UpdateTrack,
};
use red::systems::scalar::Scalar;
use red::systems::sessions::{log_session, log_skip, session_command, skip_command};
use red::systems::tick::{start_tick, tick_once, TickAction, TickEvent, TickState};
use red::systems::tracks::{
    create_command, create_track, created, delete_track, delete_track_data, get_track, put_settings, update_command,
    update_track,
};

#[derive(Clone, Copy, Debug, PartialEq)]
struct Num(f64);

impl Scalar for Num {
    fn whole(n: u32) -> Self {
        Num(n as f64)
    }
    fn plus(self, other: Self) -> Self {
        Num(self.0 + other.0)
    }
    fn minus(self, other: Self) -> Self {
        Num(self.0 - other.0)
    }
    fn times(self, other: Self) -> Self {
        Num(self.0 * other.0)
    }
    fn over(self, other: Self) -> Self {
        Num(self.0 / other.0)
    }
    fn negated(self) -> Self {
        Num(-self.0)
    }
    fn exponential(self) -> Self {
        Num(self.0.exp())
    }
    fn larger(self, other: Self) -> Self {
        Num(self.0.max(other.0))
    }
    fn exceeds(self, other: Self) -> bool {
        self.0 > other.0
    }
    fn tenths(self) -> String {
        format!("{:.1}", self.0)
    }
}

fn copy(t: &Track<Num>) -> Track<Num> {
    Track {
        id: t.id.clone(),
        name: t.name.clone(),
        kind: t.kind.clone(),
        tau_days: t.tau_days,
        mean_load: t.mean_load,
        period_days: t.period_days,
        alert_mult: t.alert_mult,
        weekdays: t.weekdays.clone(),
        unit_load: t.unit_load,
        created_ms: t.created_ms,
    }
}

/// A store whose values are texts, but for the tracks.
#[derive(Default)]
struct Memory {
    values: HashMap<String, String>,
    fields: HashMap<(String, String), String>,
    tracks: HashMap<String, Track<Num>>,
    lists: HashMap<String, Vec<String>>,
}

fn told(record: &Record<Num>) -> String {
    match record {
        Record::Settings(s) => format!("settings {}", s.alert_hour),
        Record::Track(t) => format!("track {}", t.id),
        Record::Session(s) => format!("session {} {}", s.ts_ms, s.load.0),
        Record::Skip(s) => format!("skip {} {}", s.scheduled_date, s.ts_ms),
        Record::Scheduled(s) => format!("scheduled {}", s.materialized_ms),
        Record::Day(day) => day.clone(),
    }
}

impl Memory {
    fn apply(&mut self, command: Command<Record<Num>>) -> bool {
        match command {
            Command::Put { key, value } => {
                self.values.insert(key, told(&value));
            }
            Command::HashSet { key, field, value } => match value {
                Record::Track(t) => {
                    assert_eq!(key, TRACKS_KEY);
                    self.tracks.insert(field, copy(t));
                }
                other => {
                    self.fields.insert((key, field), told(&other));
                }
            },
            Command::HashSetNew { key, field, value } => {
                assert_eq!(key, TRACKS_KEY);
                if self.tracks.contains_key(&field) {
                    return false;
                }
                match value {
                    Record::Track(t) => self.tracks.insert(field, copy(t)),
                    _ => panic!("not a track"),
                };
            }
            Command::HashDelete { key, field } => {
                assert_eq!(key, TRACKS_KEY);
                self.tracks.remove(&field);
            }
            Command::ListPush { key, value } => {
                self.lists.entry(key).or_default().insert(0, told(&value));
            }
            Command::Delete { keys } => {
                for key in keys {
                    self.values.remove(&key);
                    self.lists.remove(&key);
                    self.fields.retain(|(k, _), _| *k != key);
                }
            }
        }
        true
    }

    fn track(&self, id: &str) -> Stored<Track<Num>> {
        match self.tracks.get(id) {
            Some(t) => Stored::Value(copy(t)),
            None => Stored::Missing,
        }
    }

    /// The name and the kind of a track, as a request reads them.
    fn read(&self, id: &str) -> Option<(String, String, i64)> {
        match get_track(Ok(self.track(id))) {
            Response::Json(t) => Some((t.name, t.kind, t.created_ms)),
            _ => None,
        }
    }

    fn create(&mut self, name: &str, kind: &str, now_ms: i64) -> u16 {
        let body = CreateTrack {
            name: name.to_string(),
            kind: kind.to_string(),
            tau_days: Num(7.0),
            mean_load: Num(240.0),
            period_days: Num(2.0),
            alert_mult: Num(1.75),
            weekdays: vec![0, 1, 2, 3, 4, 5, 6],
            unit_load: Num(60.0),
        };
        let track = match create_track(body, now_ms) {
            Ok(track) => track,
            Err(_) => return 400,
        };
        let outcome = self.apply(create_command(&track));
        match created(Ok(outcome), track) {
            Response::Json(_) => 200,
            Response::Bare(status) => status.code(),
            Response::Text(status, _) => status.code(),
        }
    }

    fn session(&mut self, id: &str, ts_ms: i64) {
        let body = SessionBody {
            ts_ms: Some(ts_ms),
            duration_min: Some(Num(3.0)),
            intensity: Some(Num(2.0)),
            loe: None,
        };
        match log_session(Ok(self.track(id)), body, 0) {
            Ok(session) => self.apply(session_command(id, session)),
            Err(_) => panic!("not logged"),
        };
    }

    fn skip(&mut self, id: &str, date: &str) {
        let body = SkipBody { scheduled_date: date.to_string(), reason: None };
        match log_skip(Ok(self.track(id)), body, 7) {
            Ok(skip) => self.apply(skip_command(id, skip)),
            Err(_) => panic!("not logged"),
        };
    }

    /// Runs a look and returns the titles of the pages that it sends.
    fn look(&mut self, now: Now, alert_hour: u32) -> Vec<String> {
        let mut settings = Settings::default();
        settings.ntfy_url = "http://ntfy/topic".to_string();
        settings.alert_hour = alert_hour;
        let mut pages = Vec::new();
        let (mut state, mut action) = start_tick::<Num>();
        let mut settings = Some(settings);
        loop {
            let event = match action {
                TickAction::Ask(query) => match &state {
                    TickState::ReadingSettings => {
                        TickEvent::Settings(Stored::Value(settings.take().unwrap()), now)
                    }
                    TickState::ReadingTracks { .. } => TickEvent::Tracks(
                        self.tracks.values().map(|t| Stored::Value(copy(t))).collect(),
                    ),
                    TickState::CheckingDue { track, .. } => TickEvent::Has(
                        self.fields
                            .contains_key(&(scheduled_key(&track.id), write_day(now.day))),
                    ),
                    TickState::ReadingSessions { .. } => TickEvent::Sessions(vec![]),
                    TickState::ReadingSkips { .. } => TickEvent::Skips(vec![Stored::Value(Skip {
                        scheduled_date: write_day(now.day),
                        reason: None,
                        ts_ms: now.ms,
                    })]),
                    TickState::ReadingLastPage { id, .. } => {
                        TickEvent::LastPage(self.values.get(&last_alert_key(id)).cloned())
                    }
                    _ => {
                        drop(query);
                        panic!("asked for nothing")
                    }
                },
                TickAction::Write(command) => {
                    self.apply(command);
                    TickEvent::Written
                }
                TickAction::Page(alert) => {
                    pages.push(alert.title);
                    TickEvent::Paged
                }
                TickAction::Stop => return pages,
            };
            (state, action) = tick_once(state, event);
        }
    }
}

#[test]
fn a_track_is_read_as_it_was_created() {
    let mut m = Memory::default();
    assert_eq!(m.create("Run Far", "box", 3), 200);
    assert_eq!(m.read("run-far"), Some(("Run Far".to_string(), "box".to_string(), 3)));
    assert_eq!(m.read("run"), None);
}

#[test]
fn a_taken_id_is_a_conflict_and_changes_nothing() {
    let mut m = Memory::default();
    assert_eq!(m.create("Run Far", "box", 3), 200);
    assert_eq!(m.create("run  FAR!", "loe", 4), 409);
    assert_eq!(m.read("run-far"), Some(("Run Far".to_string(), "box".to_string(), 3)));
    assert_eq!(m.create("!", "box", 5), 400);
    assert_eq!(m.tracks.len(), 1);
}

#[test]
fn an_update_keeps_kind_and_creation() {
    let mut m = Memory::default();
    m.create("Run Far", "box", 3);
    m.create("Swim", "loe", 4);
    let body = UpdateTrack {
        name: "Run Farther".to_string(),
        tau_days: Num(1.0),
        mean_load: Num(1.0),
        period_days: Num(1.0),
        alert_mult: Num(1.0),
        weekdays: vec![],
        unit_load: Num(1.0),
    };
    let track = match update_track(Ok(m.track("run-far")), body) {
        Ok(track) => track,
        Err(_) => panic!("not found"),
    };
    m.apply(update_command("run-far", &track));
    assert_eq!(m.read("run-far"), Some(("Run Farther".to_string(), "box".to_string(), 3)));
    assert_eq!(m.read("swim"), Some(("Swim".to_string(), "loe".to_string(), 4)));
}

#[test]
fn the_log_grows_at_its_front() {
    let mut m = Memory::default();
    m.create("a", "box", 0);
    m.create("b", "box", 0);
    m.session("a", 1);
    m.session("a", 2);
    m.session("b", 3);
    m.skip("a", "2026-03-02");
    assert_eq!(m.lists[&sessions_key("a")], vec!["session 2 6", "session 1 6"]);
    assert_eq!(m.lists[&sessions_key("b")], vec!["session 3 6"]);
    assert_eq!(m.lists[&skips_key("a")], vec!["skip 2026-03-02 7"]);
    assert!(!m.lists.contains_key(&skips_key("b")));
}

#[test]
fn nothing_is_left_of_a_deleted_track() {
    let n = now();
    let mut m = Memory::default();
    for id in ["a", "a-b"] {
        m.create(id, "box", 0);
        m.session(id, 1);
        m.skip(id, "x");
    }
    m.apply(put_settings(Settings::default()));
    assert_eq!(m.look(n, 0).len(), 2);
    for _ in 0..2 {
        m.apply(delete_track("a"));
        match delete_track_data("a", Ok(())) {
            Ok(command) => m.apply(command),
            Err(_) => panic!("refused"),
        };
        assert_eq!(m.read("a"), None);
        assert!(m.read("a-b").is_some());
        assert_eq!(m.lists.len(), 2);
        assert_eq!(m.lists[&sessions_key("a-b")].len(), 1);
        assert_eq!(m.fields.len(), 1);
        assert!(m.fields.contains_key(&(scheduled_key("a-b"), write_day(n.day))));
        assert!(m.values.contains_key(&last_alert_key("a-b")));
        assert_eq!(m.values["systems:settings"], "settings 8");
        assert_eq!(m.values.len(), 2);
    }
}

#[test]
fn each_track_is_paged_once_a_day() {
    let n = now();
    let mut m = Memory::default();
    m.create("Second", "box", 2);
    m.create("First", "box", 1);
    assert_eq!(m.look(n, n.hour + 1), Vec::<String>::new());
    assert!(m.fields.is_empty());
    assert_eq!(m.look(n, n.hour), vec!["First", "Second"]);
    assert_eq!(m.look(n, 0), Vec::<String>::new());
    assert_eq!(m.fields[&(scheduled_key("first"), write_day(n.day))], format!("scheduled {}", n.ms));
    // A page of another day is no page of today.
    m.values.insert(last_alert_key("second"), "2020-01-01".to_string());
    assert_eq!(m.look(n, 0), vec!["Second"]);
}

#[test]
fn a_countdown_is_read_as_it_was_stored() {
    let mut fields: HashMap<String, String> = HashMap::new();
    let put = |fields: &mut HashMap<String, String>, name: &str, date: &str| {
        let countdown = countdowns::Countdown { name: name.to_string(), date: date.to_string() };
        match countdowns::put_command(countdown) {
            Command::HashSet { field, value, .. } => fields.insert(field, value),
            _ => panic!("not a field"),
        };
    };
    let read = |fields: &HashMap<String, String>, name: &str| {
        match countdowns::handle_get(Ok(fields.get(name).cloned())) {
            Response::Json(date) => Some(date),
            _ => None,
        }
    };
    put(&mut fields, "a", "1");
    put(&mut fields, "b", "2");
    put(&mut fields, "a", "3");
    assert_eq!(read(&fields, "a"), Some("3".to_string()));
    assert_eq!(read(&fields, "b"), Some("2".to_string()));
    for _ in 0..2 {
        match countdowns::delete_command("a") {
            Command::HashDelete { field, .. } => fields.remove(&field),
            _ => panic!("not a removal"),
        };
        assert_eq!(read(&fields, "a"), None);
        assert_eq!(read(&fields, "b"), Some("2".to_string()));
    }
}
