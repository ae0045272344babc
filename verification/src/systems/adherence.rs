//! How far a track was kept to lately: the occurrences that were due, those that were
//! done, and those that were skipped without a reason.

use vstd::prelude::*;

use crate::systems::calendar;
use crate::systems::records::Skip;
use crate::text;

verus! {

/// The days, today among them, that adherence looks back on.
pub const ADHERENCE_DAYS: i64 = 14;

#[derive(Clone, Copy)]
pub struct Adherence {
    pub scheduled: u32,
    pub completed: u32,
    pub unlogged_skips: u32,
}

/// A session with its local day, if it has one.
pub struct DatedSession<S> {
    pub day: Option<i32>,
    pub load: S,
}

/// A skip as adherence counts it.
#[derive(Clone, Copy)]
pub struct DatedSkip {
    pub day: Option<i32>,
    pub unlogged: bool,
}

/// A skip with no reason, or with a blank one.
pub open spec fn unlogged(reason: Option<String>) -> bool {
    reason matches Some(reason) ==> text::is_blank(reason@)
}

pub fn is_unlogged(reason: &Option<String>) -> (r: bool)
    ensures
        r == unlogged(*reason),
{
    match reason {
        Some(reason) => text::blank(reason.as_str()),
        None => true,
    }
}

/// `day` is the day of a skip: the scheduled day where that reads as one, the local day
/// on which the skip was logged otherwise.
pub open spec fn is_skip_day(skip: Skip, day: Option<i32>) -> bool {
    match calendar::parsed_day(skip.scheduled_date@, calendar::DAY_FORMAT@) {
        Some(scheduled) => day == Some(scheduled),
        None => calendar::is_zone_day(skip.ts_ms, day),
    }
}

pub fn skip_day(skip: &Skip) -> (r: Option<i32>)
    ensures
        is_skip_day(*skip, r),
{
    match calendar::parse_day(skip.scheduled_date.as_str()) {
        Some(day) => Some(day),
        None => calendar::local_date(skip.ts_ms),
    }
}

/// There is a day, and it is not before `start` nor after `end`.
pub open spec fn within(day: Option<i32>, start: int, end: int) -> bool {
    day matches Some(day) && start <= day <= end
}

pub fn in_window(day: Option<i32>, start: i32, end: i32) -> (r: bool)
    ensures
        r == within(day, start as int, end as int),
{
    match day {
        Some(day) => start <= day && day <= end,
        None => false,
    }
}

/// An occurrence is due on `day`.
pub open spec fn is_due(weekdays: Seq<u32>, day: int) -> bool {
    weekdays.contains(calendar::weekday(day) as u32)
}

/// A session was logged on `day`.
pub open spec fn has_session<S>(sessions: Seq<DatedSession<S>>, day: int) -> bool {
    exists|i: int|
        0 <= i < sessions.len() && (#[trigger] sessions[i]).day == Some(day as i32)
}

/// The days from `start` to `end` on which an occurrence is due.
pub open spec fn due_days(weekdays: Seq<u32>, start: int, end: int) -> nat
    decreases end - start + 1,
{
    if end < start {
        0
    } else {
        due_days(weekdays, start, end - 1) + if is_due(weekdays, end) {
            1nat
        } else {
            0
        }
    }
}

/// Those of these days on which a session was logged.
pub open spec fn done_days<S>(
    weekdays: Seq<u32>,
    sessions: Seq<DatedSession<S>>,
    start: int,
    end: int,
) -> nat
    decreases end - start + 1,
{
    if end < start {
        0
    } else {
        done_days(weekdays, sessions, start, end - 1) + if is_due(weekdays, end) && has_session(
            sessions,
            end,
        ) {
            1nat
        } else {
            0
        }
    }
}

/// The skips without a reason from `start` to `end`.
pub open spec fn unlogged_skips(skips: Seq<DatedSkip>, start: int, end: int) -> nat {
    skips.filter(|skip: DatedSkip| skip.unlogged && within(skip.day, start, end)).len()
}

/// The first day that adherence looks back on.
pub open spec fn adherence_start(today: int) -> int {
    calendar::shifted(today, ADHERENCE_DAYS - 1)
}

pub open spec fn adherence_of<S>(
    weekdays: Seq<u32>,
    sessions: Seq<DatedSession<S>>,
    skips: Seq<DatedSkip>,
    today: int,
) -> Adherence {
    let start = adherence_start(today);
    Adherence {
        scheduled: due_days(weekdays, start, today) as u32,
        completed: done_days(weekdays, sessions, start, today) as u32,
        unlogged_skips: unlogged_skips(skips, start, today) as u32,
    }
}

fn session_on<S>(sessions: &Vec<DatedSession<S>>, day: i32) -> (r: bool)
    ensures
        r == has_session(sessions@, day as int),
{
    let mut i: usize = 0;
    while i < sessions.len()
        invariant
            i <= sessions@.len(),
            forall|j: int| 0 <= j < i ==> (#[trigger] sessions@[j]).day != Some(day),
        decreases sessions@.len() - i,
    {
        if let Some(d) = sessions[i].day {
            if d == day {
                return true;
            }
        }
        i = i + 1;
    }
    false
}

fn count_unlogged(skips: &Vec<DatedSkip>, start: i32, end: i32) -> (r: usize)
    ensures
        r == unlogged_skips(skips@, start as int, end as int),
{
    let ghost counted = |skip: DatedSkip|
        skip.unlogged && within(skip.day, start as int, end as int);
    let mut n: usize = 0;
    let mut i: usize = 0;
    proof {
        reveal(Seq::filter);
    }
    while i < skips.len()
        invariant
            i <= skips@.len(),
            n <= i,
            counted == |skip: DatedSkip|
                skip.unlogged && within(skip.day, start as int, end as int),
            n == skips@.take(i as int).filter(counted).len(),
        decreases skips@.len() - i,
    {
        proof {
            assert(skips@.take(i + 1) =~= skips@.take(i as int).push(skips@[i as int]));
            skips@.take(i as int).lemma_filter_push(skips@[i as int], counted);
        }
        let skip = skips[i];
        if skip.unlogged && in_window(skip.day, start, end) {
            n = n + 1;
        }
        i = i + 1;
    }
    assert(skips@.take(skips@.len() as int) =~= skips@);
    n
}

/// The adherence of a track that is due on `weekdays`, over the last days up to
/// `today`.
pub fn adherence<S>(
    weekdays: &Vec<u32>,
    sessions: &Vec<DatedSession<S>>,
    skips: &Vec<DatedSkip>,
    today: i32,
) -> (r: Adherence)
    requires
        calendar::in_calendar(today as int),
    ensures
        r == adherence_of(weekdays@, sessions@, skips@, today as int),
{
    let start = calendar::days_before(today, ADHERENCE_DAYS - 1);
    let mut scheduled: u32 = 0;
    let mut completed: u32 = 0;
    let mut day: i32 = start;
    while day <= today
        invariant
            calendar::in_calendar(today as int),
            calendar::in_calendar(start as int),
            start <= day <= today + 1,
            today - start < ADHERENCE_DAYS,
            completed <= scheduled <= day - start,
            scheduled == due_days(weekdays@, start as int, day - 1),
            completed == done_days(weekdays@, sessions@, start as int, day - 1),
        decreases today + 1 - day,
    {
        if calendar::on_weekday(weekdays, day) {
            scheduled = scheduled + 1;
            if session_on(sessions, day) {
                completed = completed + 1;
            }
        }
        day = day + 1;
    }
    let count = count_unlogged(skips, start, today);
    Adherence { scheduled, completed, unlogged_skips: #[verifier::truncate] (count as u32) }
}

// --- Laws ---

proof fn lemma_due_bounds<S>(
    weekdays: Seq<u32>,
    sessions: Seq<DatedSession<S>>,
    start: int,
    end: int,
)
    requires
        start <= end + 1,
    ensures
        done_days(weekdays, sessions, start, end) <= due_days(weekdays, start, end) <= end - start
            + 1,
    decreases end - start + 1,
{
    if start <= end {
        lemma_due_bounds(weekdays, sessions, start, end - 1);
    }
}

/// No more occurrences are completed than were scheduled, and no more scheduled than
/// there are days.
pub proof fn lemma_adherence_bounds<S>(
    weekdays: Seq<u32>,
    sessions: Seq<DatedSession<S>>,
    skips: Seq<DatedSkip>,
    today: int,
)
    ensures
        ({
            let a = adherence_of(weekdays, sessions, skips, today);
            a.completed <= a.scheduled <= ADHERENCE_DAYS
        }),
{
    lemma_due_bounds(weekdays, sessions, adherence_start(today), today);
}

/// Whether an occurrence is due on a weekday, as a count.
pub open spec fn due_on(weekdays: Seq<u32>, weekday: u32) -> nat {
    if weekdays.contains(weekday) {
        1
    } else {
        0
    }
}

/// The number of different weekdays on which an occurrence is due.
pub open spec fn due_weekdays(weekdays: Seq<u32>) -> nat {
    due_on(weekdays, 0) + due_on(weekdays, 1) + due_on(weekdays, 2) + due_on(weekdays, 3) + due_on(
        weekdays,
        4,
    ) + due_on(weekdays, 5) + due_on(weekdays, 6)
}

proof fn lemma_due_next(weekdays: Seq<u32>, start: int, end: int, weekday: u32)
    requires
        start <= end,
        calendar::weekday(end) == weekday,
    ensures
        due_days(weekdays, start, end) == due_days(weekdays, start, end - 1) + due_on(
            weekdays,
            weekday,
        ),
{
}

/// The weekday `days` days after the weekday `w`.
spec fn later(w: int, days: int) -> u32 {
    ((w + days) % 7) as u32
}

proof fn lemma_due_in_a_week(weekdays: Seq<u32>, start: int, end: int)
    requires
        start <= end + 1,
    ensures
        due_days(weekdays, start, end + 7) == due_days(weekdays, start, end) + due_weekdays(
            weekdays,
        ),
{
    let w = calendar::weekday(end + 1);
    lemma_due_next(weekdays, start, end + 1, later(w, 0));
    lemma_due_next(weekdays, start, end + 2, later(w, 1));
    lemma_due_next(weekdays, start, end + 3, later(w, 2));
    lemma_due_next(weekdays, start, end + 4, later(w, 3));
    lemma_due_next(weekdays, start, end + 5, later(w, 4));
    lemma_due_next(weekdays, start, end + 6, later(w, 5));
    lemma_due_next(weekdays, start, end + 7, later(w, 6));
    lemma_week_from(weekdays, w);
}

/// Seven days in a row hold each weekday once, whichever they begin with.
proof fn lemma_week_from(weekdays: Seq<u32>, w: int)
    requires
        0 <= w < 7,
    ensures
        due_on(weekdays, later(w, 0)) + due_on(weekdays, later(w, 1)) + due_on(
            weekdays,
            later(w, 2),
        ) + due_on(weekdays, later(w, 3)) + due_on(weekdays, later(w, 4)) + due_on(
            weekdays,
            later(w, 5),
        ) + due_on(weekdays, later(w, 6)) == due_weekdays(weekdays),
{
}

/// Over the two weeks that adherence looks back on, an occurrence is scheduled twice for
/// each different weekday on which it is due.
pub proof fn lemma_scheduled_twice_a_weekday<S>(
    weekdays: Seq<u32>,
    sessions: Seq<DatedSession<S>>,
    skips: Seq<DatedSkip>,
    today: int,
)
    requires
        calendar::in_calendar(today - (ADHERENCE_DAYS - 1)),
    ensures
        adherence_of(weekdays, sessions, skips, today).scheduled == 2 * due_weekdays(weekdays),
{
    let start = adherence_start(today);
    assert(due_days(weekdays, start, start - 1) == 0);
    lemma_due_in_a_week(weekdays, start, start - 1);
    lemma_due_in_a_week(weekdays, start, start + 6);
    assert(start + 6 + 7 == today);
}

/// A further skip in the log counts if it has no reason and lies in the window, and not
/// otherwise.
pub proof fn lemma_skip_counts(skips: Seq<DatedSkip>, skip: DatedSkip, start: int, end: int)
    ensures
        unlogged_skips(seq![skip] + skips, start, end) == unlogged_skips(skips, start, end)
            + if skip.unlogged && within(skip.day, start, end) {
            1nat
        } else {
            0
        },
{
    let counted = |skip: DatedSkip| skip.unlogged && within(skip.day, start, end);
    Seq::filter_distributes_over_add(seq![skip], skips, counted);
    reveal_with_fuel(Seq::filter, 2);
    assert(seq![skip].drop_last() =~= Seq::<DatedSkip>::empty());
}

/// A due day is completed by its first session: whatever else is logged, it counts once.
pub proof fn lemma_session_completes<S>(
    weekdays: Seq<u32>,
    sessions: Seq<DatedSession<S>>,
    session: DatedSession<S>,
    start: int,
    end: int,
)
    requires
        calendar::in_calendar(start),
        calendar::in_calendar(end),
    ensures
        done_days(weekdays, sessions.push(session), start, end) == done_days(
            weekdays,
            sessions,
            start,
            end,
        ) + if within(session.day, start, end) && is_due(weekdays, session.day->0 as int)
            && !has_session(sessions, session.day->0 as int) {
            1nat
        } else {
            0
        },
    decreases end - start + 1,
{
    if start <= end {
        if start < end {
            lemma_session_completes(weekdays, sessions, session, start, end - 1);
        } else {
            assert(done_days(weekdays, sessions, start, end - 1) == 0);
            assert(done_days(weekdays, sessions.push(session), start, end - 1) == 0);
        }
        assert(has_session(sessions.push(session), end) == (has_session(sessions, end)
            || session.day == Some(end as i32))) by {
            let more = sessions.push(session);
            if has_session(sessions, end) {
                let i = choose|i: int|
                    0 <= i < sessions.len() && (#[trigger] sessions[i]).day == Some(end as i32);
                assert(more[i] == sessions[i]);
            }
            if session.day == Some(end as i32) {
                assert(more[sessions.len() as int] == session);
            }
            if has_session(more, end) {
                let i = choose|i: int|
                    0 <= i < more.len() && (#[trigger] more[i]).day == Some(end as i32);
                if i < sessions.len() {
                    assert(sessions[i] == more[i]);
                }
            }
        }
    }
}

}
