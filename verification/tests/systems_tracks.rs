//! Settings, tracks and logs: ids, keys, commands and answers.

use red::http::{Response, Status};
use red::store::{Command, Query, StoreFault, Stored};
use red::systems::calendar::{now, Now};
use red::systems::keys::{
    last_alert_key, scheduled_key, sessions_key, skips_key, slugify, SETTINGS_KEY, TRACKS_KEY,
};
use red::systems::records::{
    CreateTrack, LoggedSession, Record, SessionBody, Settings, Skip, SkipBody, Track, UpdateTrack,
};
use red::systems::scalar::Scalar;
use red::systems::sessions::{
    load_sessions, load_skips, log_session, log_skip, session_command, session_logged,
    sessions_query, skip_command, skips_query,
};
use red::systems::tracks::{
    create_command, create_track, created, delete_track, delete_track_data, find_track, get_settings, get_track,
    list_tracks, load_settings, load_track, load_tracks, put_settings, redis_bad, settings_query,
    track_query, tracks_query, update_command, update_track, written,
};
use red::systems::views::{get_dashboard, get_overview, log_requests, RawLog};

#[derive(Clone, Copy, Debug, PartialEq)]
struct Num(f64);

impl Scalar for Num {
    fn whole(n: u32) -> Self {
        Num(n as f64)
    }
    fn plus(self, other: Self) -> Self {
        Num(self.0 + other.0)
    }
    fn minus(self, other: Self) -> Self {
        Num(self.0 - other.0)
    }
    fn times(self, other: Self) -> Self {
        Num(self.0 * other.0)
    }
    fn over(self, other: Self) -> Self {
        Num(self.0 / other.0)
    }
    fn negated(self) -> Self {
        Num(-self.0)
    }
    fn exponential(self) -> Self {
        Num(self.0.exp())
    }
    fn larger(self, other: Self) -> Self {
        Num(self.0.max(other.0))
    }
    fn exceeds(self, other: Self) -> bool {
        self.0 > other.0
    }
    fn tenths(self) -> String {
        format!("{:.1}", self.0)
    }
}

fn track(id: &str, kind: &str, created_ms: i64) -> Track<Num> {
    Track {
        id: id.to_string(),
        name: id.to_uppercase(),
        kind: kind.to_string(),
        tau_days: Num(7.0),
        mean_load: Num(240.0),
        period_days: Num(2.0),
        alert_mult: Num(1.75),
        weekdays: vec![1, 3],
        unit_load: Num(60.0),
        created_ms,
    }
}

fn new_track(name: &str, kind: &str) -> CreateTrack<Num> {
    CreateTrack {
        name: name.to_string(),
        kind: kind.to_string(),
        tau_days: Num(1.0),
        mean_load: Num(2.0),
        period_days: Num(3.0),
        alert_mult: Num(4.0),
        weekdays: vec![5, 6],
        unit_load: Num(7.0),
    }
}

fn session(duration_min: Option<f64>, intensity: Option<f64>, loe: Option<&str>) -> SessionBody<Num> {
    SessionBody {
        ts_ms: None,
        duration_min: duration_min.map(Num),
        intensity: intensity.map(Num),
        loe: loe.map(|l| l.to_string()),
    }
}

fn bare<B>(response: Response<B>) -> u16 {
    match response {
        Response::Bare(status) => status.code(),
        _ => 0,
    }
}

fn text<B>(response: Response<B>) -> (u16, String) {
    match response {
        Response::Text(status, message) => (status.code(), message),
        _ => (0, String::new()),
    }
}

fn json<B>(response: Response<B>) -> B {
    match response {
        Response::Json(value) => value,
        _ => panic!("not a value"),
    }
}

#[test]
fn slugify_makes_stable_url_safe_ids() {
    assert_eq!(slugify("Exercise"), "exercise");
    assert_eq!(slugify("  Take Vitamins! "), "take-vitamins");
    assert_eq!(slugify("A/B__C"), "a-b-c");
    assert_eq!(slugify("!!!"), "");
}

#[test]
fn slugs_of_slugs_and_of_other_scripts() {
    for name in ["Exercise", "  Take Vitamins! ", "A/B__C", "!!!", "-a-", "9 Lives"] {
        assert_eq!(slugify(&slugify(name)), slugify(name));
    }
    assert_eq!(slugify("Été à la plage"), "t-la-plage");
    assert_eq!(slugify("日本"), "");
    assert_eq!(slugify(""), "");
    assert_eq!(slugify("--a--B--"), "a-b");
}

#[test]
fn keys() {
    assert_eq!(sessions_key("a-b"), "systems:sessions:a-b");
    assert_eq!(skips_key("a-b"), "systems:skips:a-b");
    assert_eq!(scheduled_key("a-b"), "systems:scheduled:a-b");
    assert_eq!(last_alert_key("a-b"), "systems:last_alert:a-b");
    assert_eq!(SETTINGS_KEY, "systems:settings");
    assert_eq!(TRACKS_KEY, "systems:tracks");
    assert!(matches!(settings_query(), Query::Get { key } if key == SETTINGS_KEY));
    assert!(matches!(tracks_query(), Query::HashAll { key } if key == TRACKS_KEY));
    assert!(matches!(track_query("x"), Query::HashGet { key, field } if key == TRACKS_KEY && field == "x"));
    assert!(matches!(sessions_query("x"), Query::ListAll { key } if key == "systems:sessions:x"));
    assert!(matches!(skips_query("x"), Query::ListAll { key } if key == "systems:skips:x"));
}

#[test]
fn settings_default_until_stored() {
    assert_eq!(load_settings(Stored::Missing).alert_hour, 8);
    assert_eq!(load_settings(Stored::Unreadable).warmup_days, 90);
    let mut s = Settings::default();
    s.alert_hour = 21;
    assert_eq!(json(get_settings(Ok(Stored::Value(s)))).alert_hour, 21);
    assert_eq!(json(get_settings(Ok(Stored::Missing))).alert_hour, 8);
    assert_eq!(bare(get_settings(Err(StoreFault))), 502);
    match put_settings::<Num>(Settings::default()) {
        Command::Put { key, value: Record::Settings(s) } => {
            assert_eq!(key, SETTINGS_KEY);
            assert_eq!(s.warmup_days, 90);
        }
        _ => panic!(),
    }
    assert_eq!(bare(written(Ok(()))), 200);
    assert_eq!(bare(written(Err(StoreFault))), 502);
    assert_eq!(bare::<()>(redis_bad()), 502);
}

#[test]
fn creating_a_track() {
    let t = match create_track(new_track("  Take Vitamins! ", "check"), 77) {
        Ok(t) => t,
        Err(_) => panic!(),
    };
    assert_eq!(t.id, "take-vitamins");
    assert_eq!(t.name, "  Take Vitamins! ");
    assert_eq!(t.kind, "check");
    assert_eq!(
        (t.tau_days, t.mean_load, t.period_days, t.alert_mult, t.unit_load),
        (Num(1.0), Num(2.0), Num(3.0), Num(4.0), Num(7.0))
    );
    assert_eq!(t.weekdays, vec![5, 6]);
    assert_eq!(t.created_ms, 77);
    match create_command(&t) {
        Command::HashSetNew { key, field, value: Record::Track(stored) } => {
            assert_eq!(key, TRACKS_KEY);
            assert_eq!(field, "take-vitamins");
            assert_eq!(stored.created_ms, 77);
        }
        _ => panic!(),
    }
    assert_eq!(bare(created(Ok(false), track("a", "box", 1))), 409);
    assert_eq!(bare(created(Err(StoreFault), track("a", "box", 1))), 502);
    assert_eq!(json(created(Ok(true), t)).id, "take-vitamins");
}

#[test]
fn refusing_a_track() {
    let refused = |name: &str, kind: &str| match create_track(new_track(name, kind), 0) {
        Ok(_) => (0, String::new()),
        Err(response) => text(response),
    };
    assert_eq!(refused("!!!", "nothing"), (400, "name has no url-safe characters".to_string()));
    assert_eq!(refused("x", "Box"), (400, "kind must be box|check|loe".to_string()));
    assert_eq!(refused("x", ""), (400, "kind must be box|check|loe".to_string()));
    for kind in ["box", "check", "loe"] {
        assert!(create_track(new_track("x", kind), 0).is_ok());
    }
}

#[test]
fn reading_tracks() {
    let raw = vec![
        Stored::Value(track("c", "box", 3)),
        Stored::Unreadable,
        Stored::Value(track("b", "box", 1)),
        Stored::Value(track("a", "box", 3)),
        Stored::Value(track("d", "box", -2)),
    ];
    let ids: Vec<String> = load_tracks(raw).into_iter().map(|t| t.id).collect();
    assert_eq!(ids, vec!["d", "b", "c", "a"]);
    assert_eq!(json(list_tracks(Ok(vec![Stored::Value(track("x", "loe", 0))])))[0].id, "x");
    assert_eq!(bare(list_tracks::<Num>(Err(StoreFault))), 502);
    assert!(load_track::<Num>(Stored::Unreadable).is_none());
    assert!(load_track(Stored::Value(track("x", "loe", 0))).is_some());
    assert_eq!(json(get_track(Ok(Stored::Value(track("x", "loe", 0))))).kind, "loe");
    assert_eq!(bare(get_track::<Num>(Ok(Stored::Missing))), 404);
    assert_eq!(bare(get_track::<Num>(Ok(Stored::Unreadable))), 404);
    assert_eq!(bare(get_track::<Num>(Err(StoreFault))), 502);
    assert!(find_track::<Num, ()>(Ok(Stored::Value(track("x", "loe", 0)))).is_ok());
}

#[test]
fn updating_a_track() {
    let change = || UpdateTrack {
        name: "New".to_string(),
        tau_days: Num(1.0),
        mean_load: Num(2.0),
        period_days: Num(3.0),
        alert_mult: Num(4.0),
        weekdays: vec![],
        unit_load: Num(5.0),
    };
    let t = match update_track(Ok(Stored::Value(track("old", "loe", 9))), change()) {
        Ok(t) => t,
        Err(_) => panic!(),
    };
    assert_eq!((t.id.as_str(), t.kind.as_str(), t.created_ms), ("old", "loe", 9));
    assert_eq!(t.name, "New");
    assert_eq!(
        (t.tau_days, t.mean_load, t.period_days, t.alert_mult, t.unit_load),
        (Num(1.0), Num(2.0), Num(3.0), Num(4.0), Num(5.0))
    );
    assert!(t.weekdays.is_empty());
    match update_command("old", &t) {
        Command::HashSet { key, field, value: Record::Track(stored) } => {
            assert_eq!((key.as_str(), field.as_str()), (TRACKS_KEY, "old"));
            assert_eq!(stored.name, "New");
        }
        _ => panic!(),
    }
    assert_eq!(update_track(Ok(Stored::Missing), change()).err().map(bare), Some(404));
    assert_eq!(update_track(Err(StoreFault), change()).err().map(bare), Some(502));
}

#[test]
fn deleting_a_track() {
    let first = delete_track::<Num>("x");
    assert!(matches!(first, Command::HashDelete { key, field } if key == TRACKS_KEY && field == "x"));
    let failed = delete_track_data::<Num>("x", Err(StoreFault));
    assert_eq!(failed.err().map(bare), Some(502));
    match delete_track_data::<Num>("x", Ok(())) {
        Ok(Command::Delete { keys }) => assert_eq!(
            keys,
            vec![
                "systems:sessions:x",
                "systems:skips:x",
                "systems:scheduled:x",
                "systems:last_alert:x"
            ]
        ),
        _ => panic!(),
    }
}

#[test]
fn logging_sessions() {
    let logged = |kind: &str, body: SessionBody<Num>| {
        match log_session(Ok(Stored::Value(track("x", kind, 0))), body, 500) {
            Ok(s) => Ok((s.ts_ms, s.load, s.duration_min, s.intensity, s.loe)),
            Err(response) => Err(text(response)),
        }
    };
    assert_eq!(
        logged("box", session(Some(30.0), Some(8.0), Some("low"))),
        Ok((500, Num(240.0), Some(Num(30.0)), Some(Num(8.0)), None))
    );
    assert_eq!(
        logged("check", session(Some(30.0), Some(8.0), Some("low"))),
        Ok((500, Num(60.0), None, None, None))
    );
    let mut timed = session(Some(30.0), None, Some("med"));
    timed.ts_ms = Some(-3);
    assert_eq!(logged("loe", timed), Ok((-3, Num(120.0), None, None, Some("med".to_string()))));
    let refusal = (400, "session body invalid for track kind".to_string());
    assert_eq!(logged("box", session(None, None, None)), Err(refusal.clone()));
    assert_eq!(logged("loe", session(None, None, Some("huge"))), Err(refusal.clone()));
    assert_eq!(logged("odd", session(None, None, None)), Err(refusal));
    let missing = log_session::<Num>(Ok(Stored::Missing), session(None, None, None), 0);
    assert_eq!(missing.err().map(bare), Some(404));
    let failed = log_session::<Num>(Err(StoreFault), session(None, None, None), 0);
    assert_eq!(failed.err().map(bare), Some(502));
    assert_eq!(json(session_logged(Ok(()), Num(3.0))).load, Num(3.0));
    assert_eq!(bare(session_logged(Err(StoreFault), Num(3.0))), 502);
    let stored = match log_session(Ok(Stored::Value(track("x", "check", 0))), session(None, None, None), 1) {
        Ok(stored) => stored,
        Err(_) => panic!(),
    };
    match session_command("x", stored) {
        Command::ListPush { key, value: Record::Session(s) } => {
            assert_eq!((key.as_str(), s.ts_ms), ("systems:sessions:x", 1));
        }
        _ => panic!(),
    }
}

#[test]
fn logging_skips() {
    let body = || SkipBody { scheduled_date: "2026-03-02".to_string(), reason: None };
    let skip = match log_skip(Ok(Stored::Value(track("x", "box", 0))), body(), 12) {
        Ok(skip) => skip,
        Err(_) => panic!(),
    };
    assert_eq!((skip.scheduled_date.as_str(), skip.ts_ms), ("2026-03-02", 12));
    assert!(skip.reason.is_none());
    match skip_command::<Num>("x", skip) {
        Command::ListPush { key, value: Record::Skip(s) } => {
            assert_eq!((key.as_str(), s.ts_ms), ("systems:skips:x", 12));
        }
        _ => panic!(),
    }
    assert_eq!(log_skip::<Num>(Ok(Stored::Missing), body(), 0).err().map(bare), Some(404));
    assert_eq!(log_skip::<Num>(Err(StoreFault), body(), 0).err().map(bare), Some(502));
}

#[test]
fn reading_logs() {
    let raw = vec![
        Stored::Value(LoggedSession { ts_ms: 2, load: Num(1.0) }),
        Stored::Unreadable,
        Stored::Value(LoggedSession { ts_ms: 1, load: Num(2.0) }),
    ];
    let times: Vec<i64> = load_sessions(raw).iter().map(|s| s.ts_ms).collect();
    assert_eq!(times, vec![2, 1]);
    assert!(load_skips(vec![Stored::Missing, Stored::Unreadable]).is_empty());
}

fn log(now: Now) -> RawLog<Num> {
    RawLog {
        sessions: vec![
            Stored::Value(LoggedSession { ts_ms: now.ms, load: Num(100.0) }),
            Stored::Unreadable,
            Stored::Value(LoggedSession { ts_ms: i64::MAX, load: Num(900.0) }),
        ],
        skips: vec![Stored::Value(Skip {
            scheduled_date: String::new(),
            reason: Some(String::new()),
            ts_ms: now.ms,
        })],
    }
}

#[test]
fn the_dashboard_shows_the_model() {
    let n = now();
    let mut settings = Settings::default();
    settings.warmup_days = 5;
    let d = json(get_dashboard(track("x", "box", 0), Ok((Stored::Value(settings), log(n))), n));
    assert_eq!((d.id.as_str(), d.name.as_str(), d.kind.as_str()), ("x", "X", "box"));
    assert_eq!(d.fitness.len(), 5);
    assert_eq!(d.daily_load[4].load, Num(100.0));
    assert_eq!(d.fitness[4].value, Num(100.0));
    assert_eq!(d.deficit_load.0, d.floor.0 - 100.0);
    assert_eq!(d.deficit_sessions.0, d.deficit_load.0 / 240.0);
    assert_eq!(d.alert_threshold, Num(420.0));
    assert_eq!(d.adherence.unlogged_skips, 1);
    let unset = json(get_dashboard(track("x", "box", 0), Ok((Stored::Missing, log(n))), n));
    assert_eq!(unset.fitness.len(), 90);
    assert_eq!(bare(get_dashboard(track("x", "box", 0), Err(StoreFault), n)), 502);
}

#[test]
fn the_overview_has_a_row_for_each_track() {
    let n = now();
    let empty = RawLog { sessions: vec![], skips: vec![] };
    let rows = json(get_overview(
        Ok((
            Stored::Missing,
            vec![(track("a", "box", 0), log(n)), (track("b", "loe", 0), empty)],
        )),
        n,
    ));
    assert_eq!(rows.len(), 2);
    assert_eq!((rows[0].id.as_str(), rows[0].kind.as_str()), ("a", "box"));
    assert_eq!(rows[0].last_session_ms, Some(i64::MAX));
    assert_eq!(rows[0].unlogged_skips, 1);
    assert!(rows[0].over_threshold);
    assert_eq!((rows[1].id.as_str(), rows[1].name.as_str()), ("b", "B"));
    assert_eq!(rows[1].last_session_ms, None);
    assert_eq!(rows[1].unlogged_skips, 0);
    assert_eq!(rows[1].over_threshold, rows[1].deficit_load.0 > rows[1].alert_threshold.0);
    assert_eq!(bare(get_overview::<Num>(Err(StoreFault), n)), 502);
    let requests = log_requests(vec![track("a", "box", 0), track("b", "box", 0)]);
    assert_eq!(requests.len(), 2);
    for (request, id) in requests.iter().zip(["a", "b"]) {
        assert_eq!(request.track.id, id);
        assert!(matches!(&request.sessions, Query::ListAll { key } if *key == sessions_key(id)));
        assert!(matches!(&request.skips, Query::ListAll { key } if *key == skips_key(id)));
    }
    assert_eq!(Status::Conflict.code(), 409);
}
