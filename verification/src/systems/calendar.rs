//! Days of the calendar, as numbers: day 1 is January 1 of the year 1, in the Gregorian
//! calendar extended to all years.

use chrono::{DateTime, Datelike, Local, NaiveDate, Offset, TimeDelta, Timelike, Utc};
use vstd::prelude::*;

verus! {

/// The first day that the calendar holds, January 1 of the year -262143.
pub const MIN_DAY: i32 = -95_746_129;

/// The last day that the calendar holds, December 31 of the year 262142.
pub const MAX_DAY: i32 = 95_745_399;

/// January 1, 1970.
pub const EPOCH_DAY: i32 = 719_163;

/// A day in milliseconds.
pub const DAY_MS: i64 = 86_400_000;

/// How a day is written: year, month and day.
pub const DAY_FORMAT: &'static str = "%Y-%m-%d";

pub open spec fn in_calendar(day: int) -> bool {
    MIN_DAY <= day <= MAX_DAY
}

/// The day in UTC of an instant in milliseconds since the epoch.
pub open spec fn utc_day(ts_ms: i64) -> int {
    ts_ms as int / DAY_MS as int + EPOCH_DAY
}

/// `day` can be the local day of an instant, whatever the time zone: it is the day in
/// UTC or one beside it. An instant outside the calendar has none; one on the
/// calendar's first or last day may have none.
pub open spec fn is_local_day(ts_ms: i64, day: Option<i32>) -> bool {
    match day {
        Some(day) => {
            &&& in_calendar(day as int)
            &&& in_calendar(utc_day(ts_ms))
            &&& utc_day(ts_ms) - 1 <= day <= utc_day(ts_ms) + 1
        },
        None => !(MIN_DAY < utc_day(ts_ms) < MAX_DAY),
    }
}

/// The text of a day in a format of `chrono`'s.
pub uninterp spec fn formatted_day(day: i32, format: Seq<char>) -> Seq<char>;

/// The day that a text writes in a format of `chrono`'s, if it writes one.
pub uninterp spec fn parsed_day(text: Seq<char>, format: Seq<char>) -> Option<i32>;

/// The local day of an instant: `DateTime::from_timestamp_millis`, then
/// `with_timezone(&Local)` and the date of `NaiveDateTime::checked_add_offset` of
/// `chrono`. The time zone is this machine's, and `chrono` holds its offset from UTC to
/// less than a day: it panics on a machine that is set up otherwise. Which of the days
/// around the day in UTC comes back rests on the machine and is not stated.
#[verifier::external_body]
fn day_in_zone(ts_ms: i64) -> (r: Option<i32>)
    ensures
        is_local_day(ts_ms, r),
{
    DateTime::<Utc>::from_timestamp_millis(ts_ms).and_then(
        |utc|
            utc.naive_utc().checked_add_offset(utc.with_timezone(&Local).offset().fix()),
    ).map(|local| local.date().num_days_from_ce())
}

/// The present as milliseconds since the epoch, local day and local hour: `Local::now`
/// of `chrono`, and of what it returns `timestamp_millis`, `date_naive` and `hour`. What
/// the clock shows is not stated; the day is one that the milliseconds can have.
/// Outside a browser `Local::now` panics on a clock that shows a time before the epoch,
/// and everywhere on one that shows a time outside `chrono`'s calendar.
#[verifier::external_body]
fn read_clock() -> (r: (i64, i32, u32))
    ensures
        r.0 >= 0,
        is_local_day(r.0, Some(r.1)),
        r.2 < 24,
{
    let now = Local::now();
    (now.timestamp_millis(), now.date_naive().num_days_from_ce(), now.hour())
}

/// The day `days` before `day`, or none where that is outside the calendar:
/// `NaiveDate::checked_sub_signed` of `chrono`, which takes the days as a `TimeDelta`.
/// More days than a `TimeDelta` can hold lead outside the calendar too.
#[verifier::external_body]
fn checked_days_before(day: i32, days: i64) -> (r: Option<i32>)
    requires
        in_calendar(day as int),
    ensures
        r == if in_calendar(day - days) {
            Some((day - days) as i32)
        } else {
            None
        },
{
    let date = NaiveDate::from_num_days_from_ce_opt(day).unwrap();
    TimeDelta::try_days(days).and_then(|delta| date.checked_sub_signed(delta)).map(
        |earlier| earlier.num_days_from_ce(),
    )
}

/// The day of the week, from 0 for Sunday to 6 for Saturday: `NaiveDate::weekday` and
/// `Weekday::num_days_from_sunday` of `chrono`. Day 1 is a Monday, so it is the
/// remainder of the day's number by 7.
#[verifier::external_body]
fn weekday_from_sunday(day: i32) -> (r: u32)
    requires
        in_calendar(day as int),
    ensures
        r as int == weekday(day as int),
{
    NaiveDate::from_num_days_from_ce_opt(day).unwrap().weekday().num_days_from_sunday()
}

/// The text of a day: `NaiveDate::format` of `chrono`. It claims that the text is a
/// function of the day and the format, and that `NaiveDate::parse_from_str` reads the
/// day back from it; what the text looks like is not stated.
#[verifier::external_body]
fn format_day(day: i32, format: &str) -> (r: String)
    requires
        in_calendar(day as int),
        format@ == DAY_FORMAT@,
    ensures
        r@ == formatted_day(day, format@),
        parsed_day(r@, format@) == Some(day),
{
    NaiveDate::from_num_days_from_ce_opt(day).unwrap().format(format).to_string()
}

/// The day that a text writes: `NaiveDate::parse_from_str` of `chrono`. It claims that
/// the day is a function of the text and the format, and lies in the calendar; which
/// texts write a day is not stated.
#[verifier::external_body]
fn read_day(text: &str, format: &str) -> (r: Option<i32>)
    ensures
        r == parsed_day(text@, format@),
        r matches Some(day) ==> in_calendar(day as int),
{
    NaiveDate::parse_from_str(text, format).ok().map(|date| date.num_days_from_ce())
}

/// The day of the week, from 0 for Sunday to 6 for Saturday.
pub open spec fn weekday(day: int) -> int {
    day % 7
}

/// `day` shifted `days` earlier; `day` itself where that leads outside the calendar.
pub open spec fn shifted(day: int, days: int) -> int {
    if in_calendar(day - days) {
        day - days
    } else {
        day
    }
}

/// How a day is written in logs, keys and answers.
pub open spec fn day_text(day: int) -> Seq<char> {
    formatted_day(day as i32, DAY_FORMAT@)
}

/// `day` is what the machine's time zone gives for an instant.
pub closed spec fn is_zone_day(ts_ms: i64, day: Option<i32>) -> bool {
    call_ensures(day_in_zone, (ts_ms,), day)
}

/// What the machine's time zone gives for an instant is a day that the instant can have.
pub proof fn lemma_zone_day_is_local(ts_ms: i64, day: Option<i32>)
    requires
        is_zone_day(ts_ms, day),
    ensures
        is_local_day(ts_ms, day),
{
}

/// A reading of the clock.
#[derive(Clone, Copy)]
pub struct Now {
    /// Milliseconds since the epoch.
    pub ms: i64,
    /// The local day.
    pub day: i32,
    /// The local hour, from 0 to 23.
    pub hour: u32,
}

impl Now {
    /// The three belong together, and show no time before the epoch.
    pub open spec fn valid(self) -> bool {
        self.ms >= 0 && is_local_day(self.ms, Some(self.day)) && self.hour < 24
    }

    /// This is what the clock has shown.
    pub closed spec fn is_reading(self) -> bool {
        call_ensures(read_clock, (), (self.ms, self.day, self.hour))
    }
}

/// Reads the clock.
pub fn now() -> (r: Now)
    ensures
        r.is_reading(),
        r.valid(),
{
    let (ms, day, hour) = read_clock();
    Now { ms, day, hour }
}

/// The local day of an instant in milliseconds since the epoch. Days are local, so that
/// they end at midnight; going through UTC makes the day of an instant unambiguous.
pub fn local_date(ts_ms: i64) -> (r: Option<i32>)
    ensures
        is_zone_day(ts_ms, r),
        is_local_day(ts_ms, r),
{
    day_in_zone(ts_ms)
}

/// `day` shifted `days` earlier; `day` itself where that leads outside the calendar.
pub fn days_before(day: i32, days: i64) -> (r: i32)
    requires
        in_calendar(day as int),
    ensures
        r == shifted(day as int, days as int),
{
    match checked_days_before(day, days) {
        Some(earlier) => earlier,
        None => day,
    }
}

/// Whether `weekdays` holds the weekday of `day`.
pub fn on_weekday(weekdays: &Vec<u32>, day: i32) -> (r: bool)
    requires
        in_calendar(day as int),
    ensures
        r == weekdays@.contains(weekday(day as int) as u32),
{
    let today = weekday_from_sunday(day);
    let mut i: usize = 0;
    while i < weekdays.len()
        invariant
            i <= weekdays@.len(),
            today as int == weekday(day as int),
            forall|j: int| 0 <= j < i ==> #[trigger] weekdays@[j] != today,
        decreases weekdays@.len() - i,
    {
        if weekdays[i] == today {
            assert(weekdays@[i as int] == today);
            return true;
        }
        i = i + 1;
    }
    false
}

/// How `day` is written.
pub fn write_day(day: i32) -> (r: String)
    requires
        in_calendar(day as int),
    ensures
        r@ == day_text(day as int),
        parsed_day(r@, DAY_FORMAT@) == Some(day),
{
    format_day(day, DAY_FORMAT)
}

/// The day that `text` writes, if it writes one.
pub fn parse_day(text: &str) -> (r: Option<i32>)
    ensures
        r == parsed_day(text@, DAY_FORMAT@),
        r matches Some(day) ==> in_calendar(day as int),
{
    read_day(text, DAY_FORMAT)
}

// --- Laws ---

/// The local day of an instant is what the machine's time zone gives for that very
/// instant.
proof fn lemma_local_date(ts_ms: i64, day: Option<i32>)
    requires
        call_ensures(local_date, (ts_ms,), day) || is_zone_day(ts_ms, day),
    ensures
        call_ensures(day_in_zone, (ts_ms,), day),
{
}

/// The present is what the clock shows, unchanged.
proof fn lemma_now(now: Now)
    requires
        call_ensures(self::now, (), now),
    ensures
        call_ensures(read_clock, (), (now.ms, now.day, now.hour)),
{
}

/// A day is written and read as year, month and day.
pub proof fn lemma_day_texts(day: i32, written: String, text: &str, read: Option<i32>)
    requires
        call_ensures(write_day, (day,), written),
        call_ensures(parse_day, (text,), read),
    ensures
        written@ == formatted_day(day, "%Y-%m-%d"@),
        parsed_day(written@, "%Y-%m-%d"@) == Some(day),
        read == parsed_day(text@, "%Y-%m-%d"@),
{
}

/// Earlier by so many days is the day's number less them, and the day itself where the
/// calendar does not reach.
pub proof fn lemma_days_before(day: i32, days: i64, r: i32)
    requires
        call_ensures(days_before, (day, days), r),
    ensures
        -95_746_129 <= day - days <= 95_745_399 ==> r == day - days,
        !(-95_746_129 <= day - days <= 95_745_399) ==> r == day,
{
}

/// A day is on one of the weekdays if its number leaves one of them over by 7: the days
/// of a week are told apart, and each comes back after seven days.
pub proof fn lemma_on_weekday(weekdays: &Vec<u32>, day: i32, r: bool)
    requires
        call_ensures(on_weekday, (weekdays, day), r),
    ensures
        r <==> exists|i: int| 0 <= i < weekdays@.len() && #[trigger] weekdays@[i] == day % 7,
{
    if r {
        let i = choose|i: int|
            0 <= i < weekdays@.len() && weekdays@[i] == weekday(day as int) as u32;
        assert(weekdays@[i] == day % 7);
    } else if exists|i: int| 0 <= i < weekdays@.len() && #[trigger] weekdays@[i] == day % 7 {
        let i = choose|i: int| 0 <= i < weekdays@.len() && #[trigger] weekdays@[i] == day % 7;
        assert(weekdays@[i] == weekday(day as int) as u32);
    }
}

}
