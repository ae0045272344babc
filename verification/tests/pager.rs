//! The pager: what it asks, writes and sends, step by step.

use red::store::{Command, Query, Stored};
use red::systems::adherence::Adherence;
use red::systems::calendar::{now, write_day, Now};
use red::systems::model::Computed;
use red::systems::pager::{build_alert, notify, ntfy_token, should_page, Alert, NTFY_TIMEOUT_SECS};
use red::systems::records::{LoggedSession, Record, Settings, Skip, Track};
use red::systems::scalar::Scalar;
use red::systems::tick::{
    start_tick, tick_once, TickAction, TickEvent, TickState, TICK_SECS,
};

#[derive(Clone, Copy, Debug, PartialEq)]
struct Num(f64);

impl Scalar for Num {
    fn whole(n: u32) -> Self {
        Num(n as f64)
    }
    fn plus(self, other: Self) -> Self {
        Num(self.0 + other.0)
    }
    fn minus(self, other: Self) -> Self {
        Num(self.0 - other.0)
    }
    fn times(self, other: Self) -> Self {
        Num(self.0 * other.0)
    }
    fn over(self, other: Self) -> Self {
        Num(self.0 / other.0)
    }
    fn negated(self) -> Self {
        Num(-self.0)
    }
    fn exponential(self) -> Self {
        Num(self.0.exp())
    }
    fn larger(self, other: Self) -> Self {
        Num(self.0.max(other.0))
    }
    fn exceeds(self, other: Self) -> bool {
        self.0 > other.0
    }
    fn tenths(self) -> String {
        format!("{:.1}", self.0)
    }
}

fn track(id: &str, weekdays: Vec<u32>, created_ms: i64) -> Track<Num> {
    Track {
        id: id.to_string(),
        name: id.to_uppercase(),
        kind: "box".to_string(),
        tau_days: Num(7.0),
        mean_load: Num(240.0),
        period_days: Num(2.0),
        alert_mult: Num(1.75),
        weekdays,
        unit_load: Num(60.0),
        created_ms,
    }
}

fn settings(alert_hour: u32) -> Settings {
    let mut s = Settings::default();
    s.ntfy_url = "http://ntfy/topic".to_string();
    s.dashboard_url = "http://red/".to_string();
    s.alert_hour = alert_hour;
    s
}

fn computed(deficit_load: f64, unlogged_skips: u32) -> Computed<Num> {
    Computed {
        floor: Num(0.0),
        deficit_load: Num(deficit_load),
        deficit_sessions: Num(2.25),
        alert_threshold: Num(100.0),
        fitness: vec![],
        daily_load: vec![],
        adherence: Adherence { scheduled: 0, completed: 0, unlogged_skips },
    }
}

type Step = (TickState<Num>, TickAction<'static, Num>);

fn step(state: TickState<Num>, event: TickEvent<Num>) -> Step {
    tick_once(state, event)
}

/// A look that has come to the first of the tracks.
fn looking(tracks: Vec<Track<Num>>, n: Now) -> Step {
    let (state, _) = start_tick::<Num>();
    let (state, action) = step(state, TickEvent::Settings(Stored::Value(settings(0)), n));
    assert!(matches!(action, TickAction::Ask(Query::HashAll { key }) if key == "systems:tracks"));
    step(state, TickEvent::Tracks(tracks.into_iter().map(Stored::Value).collect()))
}

fn asks_sessions(action: &TickAction<Num>, id: &str) -> bool {
    matches!(action, TickAction::Ask(Query::ListAll { key }) if *key == format!("systems:sessions:{id}"))
}

#[test]
fn constants() {
    assert_eq!(TICK_SECS, 15 * 60);
    assert_eq!(NTFY_TIMEOUT_SECS, 10);
}

#[test]
fn a_look_begins_with_the_settings() {
    let (state, action) = start_tick::<Num>();
    assert!(matches!(state, TickState::ReadingSettings));
    assert!(matches!(action, TickAction::Ask(Query::Get { key }) if key == "systems:settings"));
}

#[test]
fn a_blank_topic_pages_nothing() {
    for url in ["", "  \n"] {
        let mut s = settings(0);
        s.ntfy_url = url.to_string();
        let (state, action) = step(
            TickState::ReadingSettings,
            TickEvent::Settings(Stored::Value(s), now()),
        );
        assert!(matches!((state, action), (TickState::Done, TickAction::Stop)));
    }
    let (state, action) = step(
        TickState::ReadingSettings,
        TickEvent::Settings(Stored::Missing, now()),
    );
    assert!(matches!((state, action), (TickState::Done, TickAction::Stop)));
}

#[test]
fn nothing_is_paged_before_the_hour() {
    let n = now();
    let (state, action) = step(
        TickState::ReadingSettings,
        TickEvent::Settings(Stored::Value(settings(n.hour + 1)), n),
    );
    assert!(matches!((state, action), (TickState::Done, TickAction::Stop)));
    let (state, _) = step(
        TickState::ReadingSettings,
        TickEvent::Settings(Stored::Value(settings(n.hour)), n),
    );
    assert!(matches!(state, TickState::ReadingTracks { .. }));
}

#[test]
fn without_tracks_a_look_ends() {
    let (state, action) = looking(vec![], now());
    assert!(matches!((state, action), (TickState::Done, TickAction::Stop)));
}

#[test]
fn a_due_occurrence_is_noted_once() {
    let n = now();
    let every = vec![0, 1, 2, 3, 4, 5, 6];
    let today = write_day(n.day);
    let (state, action) = looking(vec![track("a", every.clone(), 0)], n);
    assert!(matches!(&action, TickAction::Ask(Query::HashHas { key, field })
        if key == "systems:scheduled:a" && *field == today));
    let (state, action) = step(state, TickEvent::Has(false));
    match action {
        TickAction::Write(Command::HashSet { key, field, value: Record::Scheduled(s) }) => {
            assert_eq!((key.as_str(), &field), ("systems:scheduled:a", &today));
            assert_eq!(s.materialized_ms, n.ms);
        }
        _ => panic!(),
    }
    let (_, action) = step(state, TickEvent::Written);
    assert!(asks_sessions(&action, "a"));

    let (state, _) = looking(vec![track("a", every, 0)], n);
    let (_, action) = step(state, TickEvent::Has(true));
    assert!(asks_sessions(&action, "a"));
}

#[test]
fn a_track_that_has_fallen_behind_is_paged_once_a_day() {
    let n = now();
    let today = write_day(n.day);
    let (state, action) = looking(vec![track("b", vec![], 2), track("a", vec![], 1)], n);
    assert!(asks_sessions(&action, "a"));
    let (state, action) = step(state, TickEvent::Sessions(vec![]));
    assert!(matches!(action, TickAction::Ask(Query::ListAll { key }) if key == "systems:skips:a"));
    let (state, action) = step(state, TickEvent::Skips(vec![]));
    assert!(matches!(action, TickAction::Ask(Query::Get { key }) if key == "systems:last_alert:a"));
    let (state, action) = step(state, TickEvent::LastPage(Some("2020-01-01".to_string())));
    match action {
        TickAction::Page(alert) => {
            assert_eq!(alert.topic_url, "http://ntfy/topic");
            assert_eq!(alert.title, "A");
        }
        _ => panic!(),
    }
    let (state, action) = step(state, TickEvent::Paged);
    match action {
        TickAction::Write(Command::Put { key, value: Record::Day(day) }) => {
            assert_eq!((key.as_str(), &day), ("systems:last_alert:a", &today));
        }
        _ => panic!(),
    }
    // The next track was paged today.
    let (state, action) = step(state, TickEvent::Written);
    assert!(asks_sessions(&action, "b"));
    let (state, _) = step(state, TickEvent::Sessions(vec![]));
    let (state, _) = step(state, TickEvent::Skips(vec![]));
    let (state, action) = step(state, TickEvent::LastPage(Some(today)));
    assert!(matches!((state, action), (TickState::Done, TickAction::Stop)));
}

#[test]
fn a_track_that_is_kept_up_is_not_paged() {
    let n = now();
    let (state, _) = looking(vec![track("a", vec![], 1)], n);
    let session = LoggedSession { ts_ms: n.ms, load: Num(5000.0) };
    let (state, _) = step(state, TickEvent::Sessions(vec![Stored::Value(session)]));
    let (state, action) = step(state, TickEvent::Skips(vec![]));
    assert!(matches!((state, action), (TickState::Done, TickAction::Stop)));
}

#[test]
fn a_skip_without_a_reason_is_paged() {
    let n = now();
    let (state, _) = looking(vec![track("a", vec![], 1)], n);
    let session = LoggedSession { ts_ms: n.ms, load: Num(5000.0) };
    let (state, _) = step(state, TickEvent::Sessions(vec![Stored::Value(session)]));
    let skip = Skip { scheduled_date: write_day(n.day), reason: None, ts_ms: n.ms };
    let (state, _) = step(state, TickEvent::Skips(vec![Stored::Value(skip)]));
    let (_, action) = step(state, TickEvent::LastPage(None));
    match action {
        TickAction::Page(alert) => {
            assert_eq!(alert.body, "A: 1 unlogged skip(s) — log a reason or do it.")
        }
        _ => panic!(),
    }
}

#[test]
fn a_fault_ends_a_look() {
    let (state, _) = looking(vec![track("a", vec![], 1)], now());
    let (state, action) = step(state, TickEvent::Failed);
    assert!(matches!((state, action), (TickState::Done, TickAction::Stop)));
    let (state, action) = step(TickState::Done, TickEvent::Written);
    assert!(matches!((state, action), (TickState::Done, TickAction::Stop)));
}

#[test]
fn what_is_paged() {
    assert!(should_page(&computed(100.5, 0)));
    assert!(!should_page(&computed(100.0, 0)));
    assert!(should_page(&computed(0.0, 1)));
}

#[test]
fn what_a_page_says() {
    let t = track("run", vec![], 0);
    let deficit = build_alert(&settings(0), &t, &computed(101.0, 4));
    assert_eq!(
        deficit.body,
        "RUN: deficit ~2.2 sessions below floor — schedule one and clear it."
    );
    assert_eq!(deficit.topic_url, "http://ntfy/topic");
    assert_eq!(deficit.title, "RUN");
    assert_eq!(deficit.priority, "high");
    assert_eq!(deficit.tags, "warning");
    assert_eq!(deficit.click, "http://red/");
    let skips = build_alert(&settings(0), &t, &computed(100.0, 12));
    assert_eq!(skips.body, "RUN: 12 unlogged skip(s) — log a reason or do it.");
}

fn alert(click: &str) -> Alert {
    Alert {
        topic_url: "http://ntfy/topic".to_string(),
        title: "T".to_string(),
        body: "B".to_string(),
        priority: "high".to_string(),
        tags: "warning".to_string(),
        click: click.to_string(),
    }
}

fn headers(click: &str, token: Option<&str>) -> Vec<(String, String)> {
    notify(&alert(click), &token.map(|t| t.to_string())).headers
}

fn pairs(all: &[(&str, &str)]) -> Vec<(String, String)> {
    all.iter().map(|(a, b)| (a.to_string(), b.to_string())).collect()
}

#[test]
fn how_a_page_is_sent() {
    let post = notify(&alert(""), &None);
    assert_eq!(post.url, "http://ntfy/topic");
    assert_eq!(post.body, "B");
    let first = [("Title", "T"), ("Priority", "high"), ("Tags", "warning")];
    assert_eq!(headers("", None), pairs(&first));
    let mut all = first.to_vec();
    all.push(("Authorization", "Bearer abc"));
    assert_eq!(headers("", Some("abc")), pairs(&all));
    all.push(("Click", "http://red/"));
    assert_eq!(headers("http://red/", Some("abc")), pairs(&all));
    all.remove(3);
    assert_eq!(headers("http://red/", None), pairs(&all));
}

#[test]
fn tokens() {
    assert_eq!(ntfy_token(None), None);
    assert_eq!(ntfy_token(Some(String::new())), None);
    assert_eq!(ntfy_token(Some("t".to_string())), Some("t".to_string()));
}
