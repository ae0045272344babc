//! The model of a track: loads, fitness, floor, deficit and adherence.

use chrono::{Datelike, Local, NaiveDate, TimeZone, Utc};
use red::systems::adherence::{
    adherence, in_window, is_unlogged, skip_day, Adherence, DatedSession, DatedSkip,
};
use red::systems::calendar::{
    days_before, local_date, now, on_weekday, parse_day, write_day, Now, MAX_DAY, MIN_DAY,
};
use red::systems::model::{compute, compute_on};
use red::systems::records::{LoggedSession, SessionBody, Settings, Skip, Track};
use red::systems::scalar::Scalar;
use red::systems::sessions::compute_load;

#[derive(Clone, Copy, Debug, PartialEq)]
struct Num(f64);

impl Scalar for Num {
    fn whole(n: u32) -> Self {
        Num(n as f64)
    }
    fn plus(self, other: Self) -> Self {
        Num(self.0 + other.0)
    }
    fn minus(self, other: Self) -> Self {
        Num(self.0 - other.0)
    }
    fn times(self, other: Self) -> Self {
        Num(self.0 * other.0)
    }
    fn over(self, other: Self) -> Self {
        Num(self.0 / other.0)
    }
    fn negated(self) -> Self {
        Num(-self.0)
    }
    fn exponential(self) -> Self {
        Num(self.0.exp())
    }
    fn larger(self, other: Self) -> Self {
        Num(self.0.max(other.0))
    }
    fn exceeds(self, other: Self) -> bool {
        self.0 > other.0
    }
    fn tenths(self) -> String {
        format!("{:.1}", self.0)
    }
}

fn track() -> Track<Num> {
    Track {
        id: "exercise".to_string(),
        name: "Exercise".to_string(),
        kind: "box".to_string(),
        tau_days: Num(7.0),
        mean_load: Num(240.0),
        period_days: Num(2.0),
        alert_mult: Num(1.75),
        weekdays: vec![1, 3, 5, 0],
        unit_load: Num(60.0),
        created_ms: 0,
    }
}

fn body(duration_min: Option<f64>, intensity: Option<f64>, loe: Option<&str>) -> SessionBody<Num> {
    SessionBody {
        ts_ms: None,
        duration_min: duration_min.map(Num),
        intensity: intensity.map(Num),
        loe: loe.map(|l| l.to_string()),
    }
}

fn day(y: i32, m: u32, d: u32) -> i32 {
    NaiveDate::from_ymd_opt(y, m, d).unwrap().num_days_from_ce()
}

fn warmup(days: i64) -> Settings {
    let mut s = Settings::default();
    s.warmup_days = days;
    s
}

fn on(day: i32, load: f64) -> DatedSession<Num> {
    DatedSession { day: Some(day), load: Num(load) }
}

#[test]
fn compute_load_per_kind() {
    let box_body = body(Some(30.0), Some(8.0), None);
    assert_eq!(compute_load("box", &box_body, Num(60.0)), Some(Num(240.0)));

    let empty = body(None, None, None);
    assert_eq!(compute_load("check", &empty, Num(60.0)), Some(Num(60.0)));
    // box needs both fields -> unscoreable.
    assert_eq!(compute_load("box", &empty, Num(60.0)), None);

    let loe_body = body(None, None, Some("high"));
    assert_eq!(compute_load("loe", &loe_body, Num(60.0)), Some(Num(180.0)));
    assert_eq!(compute_load("loe", &empty, Num(60.0)), None);
}

#[test]
fn floor_and_deficit_recomputed_from_empty_log() {
    let t = track();
    let s = Settings::default();
    let now = now();
    let c = compute(&t, &vec![], &vec![], &s, now);

    let expected_floor = 240.0 / (1.0 - (-2.0_f64 / 7.0).exp());
    assert!((c.floor.0 - expected_floor).abs() < 1e-6);
    // No sessions -> fitness is 0 today -> full floor is the deficit.
    assert!((c.deficit_load.0 - expected_floor).abs() < 1e-6);
    assert!((c.deficit_sessions.0 - expected_floor / 240.0).abs() < 1e-9);
    assert!((c.alert_threshold.0 - 1.75 * 240.0).abs() < 1e-9);
    // Series is exactly warmup_days long.
    assert_eq!(c.fitness.len(), s.warmup_days as usize);
    assert_eq!(c.daily_load.len(), s.warmup_days as usize);
}

#[test]
fn today_session_lifts_fitness_and_shrinks_deficit() {
    let t = track();
    let s = Settings::default();
    let now = now();
    let sessions = vec![LoggedSession { ts_ms: now.ms, load: Num(300.0) }];
    let c = compute(&t, &sessions, &vec![], &s, now);
    let empty = compute(&t, &vec![], &vec![], &s, now);
    assert!(c.deficit_load.0 < empty.deficit_load.0);
    // Today's bucket carries the load.
    let last = c.daily_load.last().map(|p| p.load.0).unwrap_or(0.0);
    assert!((last - 300.0).abs() < 1e-9);
}

#[test]
fn only_blank_reason_skips_count_as_unlogged() {
    let t = track();
    let s = Settings::default();
    let now = now();
    let today = Local
        .timestamp_millis_opt(now.ms)
        .unwrap()
        .date_naive()
        .format("%Y-%m-%d")
        .to_string();
    let skips = vec![
        Skip { scheduled_date: today.clone(), reason: None, ts_ms: now.ms },
        Skip { scheduled_date: today.clone(), reason: Some("   ".to_string()), ts_ms: now.ms },
        Skip { scheduled_date: today, reason: Some("sick".to_string()), ts_ms: now.ms },
    ];
    let c = compute(&t, &vec![], &skips, &s, now);
    assert_eq!(c.adherence.unlogged_skips, 2);
}

#[test]
fn loads_of_all_levels_and_kinds() {
    assert_eq!(compute_load("loe", &body(None, None, Some("low")), Num(7.0)), Some(Num(7.0)));
    assert_eq!(compute_load("loe", &body(None, None, Some("med")), Num(7.0)), Some(Num(14.0)));
    assert_eq!(compute_load("loe", &body(None, None, Some("max")), Num(7.0)), None);
    assert_eq!(compute_load("box", &body(Some(2.0), None, None), Num(7.0)), None);
    assert_eq!(compute_load("box", &body(None, Some(2.0), None), Num(7.0)), None);
    assert_eq!(compute_load("run", &body(Some(2.0), Some(2.0), Some("low")), Num(7.0)), None);
    assert_eq!(compute_load("Box", &body(Some(2.0), Some(2.0), None), Num(7.0)), None);
}

#[test]
fn fitness_decays_by_the_day() {
    let today = day(2026, 3, 2);
    let sessions = vec![on(today, 5.0), on(today - 2, 100.0), on(today, 6.0), on(today - 3, 9.0)];
    let c = compute_on(&track(), &sessions, &vec![], &warmup(3), today);
    let decay = (-1.0_f64 / 7.0).exp();
    let dates: Vec<&str> = c.fitness.iter().map(|p| p.date.as_str()).collect();
    assert_eq!(dates, vec!["2026-02-28", "2026-03-01", "2026-03-02"]);
    let loads: Vec<f64> = c.daily_load.iter().map(|p| p.load.0).collect();
    assert_eq!(loads, vec![100.0, 0.0, 11.0]);
    let values: Vec<f64> = c.fitness.iter().map(|p| p.value.0).collect();
    assert_eq!(values, vec![100.0, 100.0 * decay, 100.0 * decay * decay + 11.0]);
    assert_eq!(c.deficit_load.0, c.floor.0 - values[2]);
    assert_eq!(c.deficit_sessions.0, c.deficit_load.0 / 240.0);
    assert_eq!(c.alert_threshold.0, 420.0);
}

#[test]
fn no_deficit_above_the_floor() {
    let today = day(2026, 3, 2);
    let c = compute_on(&track(), &vec![on(today, 5000.0)], &vec![], &warmup(90), today);
    assert_eq!(c.deficit_load, Num(0.0));
    assert_eq!(c.deficit_sessions, Num(0.0));
}

#[test]
fn floor_without_a_loss_is_the_mean() {
    let mut t = track();
    t.period_days = Num(0.0);
    let c = compute_on(&t, &vec![], &vec![], &warmup(90), day(2026, 3, 2));
    assert_eq!(c.floor, Num(240.0));
    t.mean_load = Num(0.0);
    let c = compute_on(&t, &vec![], &vec![], &warmup(90), day(2026, 3, 2));
    assert_eq!(c.floor, Num(0.0));
    assert_eq!(c.deficit_sessions, Num(0.0));
}

#[test]
fn the_window_holds_at_least_today() {
    let today = day(2026, 3, 2);
    for days in [i64::MIN, -1, 0, 1] {
        let c = compute_on(&track(), &vec![on(today - 1, 4.0)], &vec![], &warmup(days), today);
        assert_eq!(c.daily_load.len(), 1);
        assert_eq!(c.daily_load[0].load, Num(0.0));
    }
    // Further back than the calendar reaches: today alone.
    let c = compute_on(&track(), &vec![], &vec![], &warmup(i64::MAX), today);
    assert_eq!(c.fitness.len(), 1);
    assert_eq!(c.fitness[0].date, "2026-03-02");
}

#[test]
fn sessions_outside_the_window_do_not_count() {
    let today = day(2026, 3, 2);
    let with = vec![on(today - 20, 50.0), on(today + 1, 50.0), DatedSession { day: None, load: Num(50.0) }];
    let a = compute_on(&track(), &with, &vec![], &warmup(20), today);
    let b = compute_on(&track(), &vec![], &vec![], &warmup(20), today);
    assert_eq!(a.deficit_load, b.deficit_load);
    assert!(a.daily_load.iter().all(|p| p.load == Num(0.0)));
    assert_eq!(a.adherence.completed, 0);
}

#[test]
fn each_session_counts_once() {
    let today = day(2026, 3, 2);
    let sessions: Vec<DatedSession<Num>> = (0..30).map(|i| on(today - i % 10, 1.0)).collect();
    let c = compute_on(&track(), &sessions, &vec![], &warmup(8), today);
    let total: f64 = c.daily_load.iter().map(|p| p.load.0).sum();
    assert_eq!(total, 24.0);
}

#[test]
fn adherence_counts_due_days() {
    // A Monday.
    let today = day(2026, 3, 2);
    let sessions = vec![on(today, 1.0), on(today, 2.0), on(today - 1, 1.0), on(today - 2, 1.0), on(today - 14, 1.0)];
    let a: Adherence = adherence(&vec![1, 3, 5, 0], &sessions, &vec![], today);
    assert_eq!((a.scheduled, a.completed, a.unlogged_skips), (8, 2, 0));
    let every: Adherence = adherence(&vec![0, 1, 2, 3, 4, 5, 6], &sessions, &vec![], today);
    assert_eq!((every.scheduled, every.completed), (14, 3));
    let none: Adherence = adherence(&vec![7, 100], &sessions, &vec![], today);
    assert_eq!((none.scheduled, none.completed), (0, 0));
}

#[test]
fn skips_count_in_the_window_only() {
    let today = day(2026, 3, 2);
    let skip = |day: Option<i32>, unlogged: bool| DatedSkip { day, unlogged };
    let skips = vec![
        skip(Some(today), true),
        skip(Some(today - 13), true),
        skip(Some(today - 14), true),
        skip(Some(today + 1), true),
        skip(Some(today), false),
        skip(None, true),
    ];
    let a = adherence::<Num>(&vec![1], &vec![], &skips, today);
    assert_eq!(a.unlogged_skips, 2);
}

#[test]
fn reasons() {
    assert!(is_unlogged(&None));
    assert!(is_unlogged(&Some(String::new())));
    assert!(is_unlogged(&Some(" \t\u{a0}\u{3000}\n".to_string())));
    assert!(!is_unlogged(&Some(" . ".to_string())));
}

#[test]
fn a_skip_has_its_scheduled_day_or_the_day_it_was_logged() {
    let logged = now();
    let skip = |date: &str| Skip { scheduled_date: date.to_string(), reason: None, ts_ms: logged.ms };
    assert_eq!(skip_day(&skip("2026-02-28")), Some(day(2026, 2, 28)));
    assert_eq!(skip_day(&skip("2026-02-29")), Some(logged.day));
    assert_eq!(skip_day(&skip("tomorrow")), Some(logged.day));
    assert_eq!(skip_day(&skip("")), Some(logged.day));
    let lost = Skip { scheduled_date: String::new(), reason: None, ts_ms: i64::MAX };
    assert_eq!(skip_day(&lost), None);
}

#[test]
fn windows() {
    assert!(in_window(Some(5), 5, 5));
    assert!(in_window(Some(6), 5, 7));
    assert!(!in_window(Some(4), 5, 7));
    assert!(!in_window(Some(8), 5, 7));
    assert!(!in_window(None, 5, 7));
}

#[test]
fn days_of_instants() {
    for ms in [0, 1_720_730_460_000, -86_400_001, 253_402_300_799_999] {
        let expected = Utc
            .timestamp_millis_opt(ms)
            .unwrap()
            .with_timezone(&Local)
            .date_naive()
            .num_days_from_ce();
        assert_eq!(local_date(ms), Some(expected));
    }
    assert_eq!(local_date(i64::MAX), None);
    assert_eq!(local_date(i64::MIN), None);
    for edge in [MIN_DAY, MAX_DAY] {
        let ms = (edge as i64 - 719_163) * 86_400_000;
        if let Some(d) = local_date(ms) {
            assert!((d as i64 - edge as i64).abs() <= 1);
        }
        assert_eq!(local_date(ms + (edge as i64).signum() * 2 * 86_400_000), None);
    }
    let n: Now = now();
    assert_eq!(local_date(n.ms), Some(n.day));
    assert!(n.hour < 24);
}

#[test]
fn days_as_numbers() {
    assert_eq!(MIN_DAY, NaiveDate::MIN.num_days_from_ce());
    assert_eq!(MAX_DAY, NaiveDate::MAX.num_days_from_ce());
    assert_eq!(day(1970, 1, 1), 719_163);
    assert_eq!(days_before(day(2026, 3, 1), 1), day(2026, 2, 28));
    assert_eq!(days_before(day(2026, 3, 1), -1), day(2026, 3, 2));
    assert_eq!(days_before(MIN_DAY, 1), MIN_DAY);
    assert_eq!(days_before(MAX_DAY, -1), MAX_DAY);
    assert_eq!(days_before(MAX_DAY, (MAX_DAY - MIN_DAY) as i64), MIN_DAY);
    assert_eq!(days_before(0, i64::MAX), 0);
    assert_eq!(days_before(0, i64::MIN), 0);
}

#[test]
fn weekdays_from_sunday() {
    // 2026-03-01 is a Sunday.
    for i in 0..14 {
        let weekday = (i % 7) as u32;
        assert!(on_weekday(&vec![9, weekday], day(2026, 3, 1) + i));
        assert!(!on_weekday(&vec![(weekday + 1) % 7], day(2026, 3, 1) + i));
    }
    for d in [MIN_DAY, MIN_DAY + 1, -1, 0, 1, MAX_DAY] {
        let weekday = NaiveDate::from_num_days_from_ce_opt(d).unwrap().weekday();
        assert!(on_weekday(&vec![weekday.num_days_from_sunday()], d));
    }
    assert!(!on_weekday(&vec![], 1));
}

#[test]
fn days_as_texts() {
    assert_eq!(write_day(day(2026, 3, 2)), "2026-03-02");
    assert_eq!(parse_day("2026-03-02"), Some(day(2026, 3, 2)));
    assert_eq!(parse_day("2026-13-02"), None);
    assert_eq!(parse_day("2026-03-02 "), None);
    assert_eq!(parse_day("x"), None);
    for d in [MIN_DAY, MIN_DAY + 400, -400, -1, 0, 1, 366, day(9999, 12, 31), day(10000, 1, 1), MAX_DAY] {
        assert_eq!(parse_day(&write_day(d)), Some(d));
    }
}

#[test]
fn default_settings() {
    let s = Settings::default();
    assert_eq!(s.ntfy_url, "");
    assert_eq!(s.dashboard_url, "");
    assert_eq!(s.alert_hour, 8);
    assert_eq!(s.warmup_days, 90);
}

#[test]
fn a_further_session_never_raises_the_deficit() {
    let today = day(2026, 3, 2);
    let log: Vec<(i32, f64)> = vec![(today, 30.0), (today - 3, 80.0), (today - 40, 5.0), (today, 1.0)];
    let dated = |log: &[(i32, f64)]| log.iter().map(|(d, l)| on(*d, *l)).collect::<Vec<_>>();
    let without = compute_on(&track(), &dated(&log), &vec![], &warmup(30), today);
    for place in 0..=log.len() {
        for back in [0, 3, 29, 30] {
            let mut more = log.clone();
            more.insert(place, (today - back, 12.5));
            let with = compute_on(&track(), &dated(&more), &vec![], &warmup(30), today);
            assert!(with.deficit_load.0 <= without.deficit_load.0);
            assert_eq!((with.floor, with.alert_threshold), (without.floor, without.alert_threshold));
            for (a, b) in without.fitness.iter().zip(&with.fitness) {
                assert!(a.value.0 <= b.value.0);
            }
            // Thirty days back is outside the window.
            assert_eq!(with.deficit_load == without.deficit_load, back == 30);
        }
    }
}

#[test]
fn each_weekday_is_scheduled_twice() {
    for back in 0..7 {
        let today = day(2026, 3, 2) - back;
        let scheduled = |weekdays: Vec<u32>| adherence::<Num>(&weekdays, &vec![], &vec![], today).scheduled;
        assert_eq!(scheduled(vec![]), 0);
        assert_eq!(scheduled(vec![3]), 2);
        assert_eq!(scheduled(vec![3, 3, 5, 9]), 4);
        assert_eq!(scheduled(vec![6, 5, 4, 3, 2, 1, 0]), 14);
    }
}

#[test]
fn the_present_is_after_the_epoch() {
    assert!(now().ms >= 0);
    let c = compute(&track(), &vec![], &vec![], &warmup(700), now());
    assert_eq!((c.fitness.len(), c.daily_load.len()), (700, 700));
}
