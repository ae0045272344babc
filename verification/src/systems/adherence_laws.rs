//! Laws of adherence, as counts of days and of skips.

use vstd::prelude::*;

use crate::systems::adherence;
use crate::systems::adherence::{Adherence, DatedSession, DatedSkip};
use crate::systems::calendar;
use crate::systems::records::Skip;
use crate::text;

verus! {

/// The first of the last two weeks; today where the calendar does not reach back to it.
pub open spec fn two_weeks_from(today: int) -> int {
    if today - 13 >= -95_746_129 {
        today - 13
    } else {
        today
    }
}

/// A day is one of the weekdays, 0 for Sunday; day 1 is a Monday.
pub open spec fn falls_on(weekdays: Seq<u32>, day: int) -> bool {
    weekdays.contains((day % 7) as u32)
}

/// A session was logged on a day.
pub open spec fn logged_on<S>(sessions: Seq<DatedSession<S>>, day: int) -> bool {
    exists|i: int| 0 <= i < sessions.len() && (#[trigger] sessions[i]).day == Some(day as i32)
}

/// The days of the last two weeks that are one of the weekdays.
pub open spec fn scheduled_days(weekdays: Seq<u32>, start: int, today: int) -> Set<int> {
    Set::new(|day: int| start <= day <= today && falls_on(weekdays, day))
}

/// Those of them on which a session was logged.
pub open spec fn completed_days<S>(
    weekdays: Seq<u32>,
    sessions: Seq<DatedSession<S>>,
    start: int,
    today: int,
) -> Set<int> {
    Set::new(
        |day: int| start <= day <= today && falls_on(weekdays, day) && logged_on(sessions, day),
    )
}

/// A skip of these days that has no reason.
pub open spec fn is_relapse(skip: DatedSkip, start: int, today: int) -> bool {
    skip.unlogged && (skip.day matches Some(day) && start <= day <= today)
}

/// The places of the skips of these days that have no reason.
pub open spec fn relapses(skips: Seq<DatedSkip>, start: int, today: int) -> Set<int> {
    Set::new(|i: int| 0 <= i < skips.len() && is_relapse(skips[i], start, today))
}

/// The counts of adherence: of the days, of those completed, and of the skips.
pub open spec fn counts<S>(
    weekdays: Seq<u32>,
    sessions: Seq<DatedSession<S>>,
    skips: Seq<DatedSkip>,
    today: int,
    a: Adherence,
) -> bool {
    let start = two_weeks_from(today);
    &&& a.scheduled == scheduled_days(weekdays, start, today).len()
    &&& a.completed == completed_days(weekdays, sessions, start, today).len()
    &&& a.unlogged_skips == relapses(skips, start, today).len() as u32
}

proof fn lemma_scheduled(weekdays: Seq<u32>, start: int, end: int)
    ensures
        scheduled_days(weekdays, start, end).finite(),
        scheduled_days(weekdays, start, end).len() == adherence::due_days(weekdays, start, end),
    decreases end - start + 1,
{
    let days = scheduled_days(weekdays, start, end);
    if end < start {
        assert(days =~= Set::<int>::empty());
    } else {
        lemma_scheduled(weekdays, start, end - 1);
        let before = scheduled_days(weekdays, start, end - 1);
        if falls_on(weekdays, end) {
            assert(days =~= before.insert(end));
        } else {
            assert(days =~= before);
        }
    }
}

proof fn lemma_completed<S>(
    weekdays: Seq<u32>,
    sessions: Seq<DatedSession<S>>,
    start: int,
    end: int,
)
    ensures
        completed_days(weekdays, sessions, start, end).finite(),
        completed_days(weekdays, sessions, start, end).len() == adherence::done_days(
            weekdays,
            sessions,
            start,
            end,
        ),
    decreases end - start + 1,
{
    let days = completed_days(weekdays, sessions, start, end);
    if end < start {
        assert(days =~= Set::<int>::empty());
    } else {
        lemma_completed(weekdays, sessions, start, end - 1);
        let before = completed_days(weekdays, sessions, start, end - 1);
        assert(logged_on(sessions, end) == adherence::has_session(sessions, end));
        if falls_on(weekdays, end) && logged_on(sessions, end) {
            assert(days =~= before.insert(end));
        } else {
            assert(days =~= before);
        }
    }
}

proof fn lemma_relapses(skips: Seq<DatedSkip>, start: int, end: int)
    ensures
        relapses(skips, start, end).finite(),
        relapses(skips, start, end).len() == adherence::unlogged_skips(skips, start, end) <= skips.len(),
    decreases skips.len(),
{
    let all = relapses(skips, start, end);
    if skips.len() == 0 {
        reveal(Seq::filter);
        assert(all =~= Set::<int>::empty());
    } else {
        let front = skips.drop_last();
        let last = skips.len() - 1;
        lemma_relapses(front, start, end);
        assert(skips =~= front.push(skips.last()));
        front.lemma_filter_push(
            skips.last(),
            |skip: DatedSkip| skip.unlogged && adherence::within(skip.day, start, end),
        );
        let before = relapses(front, start, end);
        assert forall|i: int| 0 <= i < last implies front[i] == #[trigger] skips[i] by {}
        if is_relapse(skips.last(), start, end) {
            assert(all =~= before.insert(last));
        } else {
            assert(all =~= before);
        }
    }
}

/// What adherence gives are these counts.
pub proof fn lemma_adherence_counts<S>(
    weekdays: Seq<u32>,
    sessions: Seq<DatedSession<S>>,
    skips: Seq<DatedSkip>,
    today: int,
)
    requires
        -95_746_129 <= today <= 95_745_399,
    ensures
        counts(
            weekdays,
            sessions,
            skips,
            today,
            adherence::adherence_of(weekdays, sessions, skips, today),
        ),
{
    let start = two_weeks_from(today);
    assert(start == adherence::adherence_start(today));
    lemma_scheduled(weekdays, start, today);
    lemma_completed(weekdays, sessions, start, today);
    lemma_relapses(skips, start, today);
    adherence::lemma_adherence_bounds(weekdays, sessions, skips, today);
    lemma_few(weekdays, sessions, start, today);
}

proof fn lemma_few<S>(
    weekdays: Seq<u32>,
    sessions: Seq<DatedSession<S>>,
    start: int,
    end: int,
)
    requires
        start <= end + 1,
    ensures
        adherence::done_days(weekdays, sessions, start, end) <= end - start + 1,
        adherence::due_days(weekdays, start, end) <= end - start + 1,
    decreases end - start + 1,
{
    if start <= end {
        lemma_few(weekdays, sessions, start, end - 1);
    }
}

/// Adherence counts, over the last two weeks, the days on which an occurrence was due,
/// those of them on which a session was logged, and the skips without a reason.
pub proof fn lemma_adherence<S>(
    weekdays: &Vec<u32>,
    sessions: &Vec<DatedSession<S>>,
    skips: &Vec<DatedSkip>,
    today: i32,
    a: Adherence,
)
    requires
        call_ensures(adherence::adherence::<S>, (weekdays, sessions, skips, today), a),
        -95_746_129 <= today <= 95_745_399,
    ensures
        counts(weekdays@, sessions@, skips@, today as int, a),
{
    lemma_adherence_counts(weekdays@, sessions@, skips@, today as int);
}

/// Where each due day of the last two weeks has a session, all that was scheduled is
/// completed.
pub proof fn lemma_all_completed<S>(
    weekdays: &Vec<u32>,
    sessions: &Vec<DatedSession<S>>,
    skips: &Vec<DatedSkip>,
    today: i32,
    a: Adherence,
)
    requires
        call_ensures(adherence::adherence::<S>, (weekdays, sessions, skips, today), a),
        -95_746_129 <= today <= 95_745_399,
        forall|day: int|
            today - 13 <= day <= today && falls_on(weekdays@, day) ==> #[trigger] logged_on(
                sessions@,
                day,
            ),
    ensures
        a.completed == a.scheduled,
{
    let start = two_weeks_from(today as int);
    lemma_adherence(weekdays, sessions, skips, today, a);
    assert(completed_days(weekdays@, sessions@, start, today as int) =~= scheduled_days(
        weekdays@,
        start,
        today as int,
    ));
}

/// The first session on a due day of the last two weeks raises the completed ones by
/// one.
pub proof fn lemma_first_session_completes<S>(
    weekdays: &Vec<u32>,
    sessions: &Vec<DatedSession<S>>,
    more: &Vec<DatedSession<S>>,
    session: DatedSession<S>,
    day: i32,
    skips: &Vec<DatedSkip>,
    today: i32,
    a: Adherence,
    b: Adherence,
)
    requires
        call_ensures(adherence::adherence::<S>, (weekdays, sessions, skips, today), a),
        call_ensures(adherence::adherence::<S>, (weekdays, more, skips, today), b),
        -95_746_129 <= today - 13,
        today <= 95_745_399,
        more@ == sessions@.push(session),
        session.day == Some(day),
        today - 13 <= day <= today,
        falls_on(weekdays@, day as int),
        !logged_on(sessions@, day as int),
    ensures
        b.completed == a.completed + 1,
        b.scheduled == a.scheduled,
{
    let start = two_weeks_from(today as int);
    lemma_adherence(weekdays, sessions, skips, today, a);
    lemma_adherence(weekdays, more, skips, today, b);
    lemma_completed(weekdays@, sessions@, start, today as int);
    let before = completed_days(weekdays@, sessions@, start, today as int);
    assert forall|d: int| start <= d <= today implies #[trigger] logged_on(more@, d) == (logged_on(
        sessions@,
        d,
    ) || d == day) by {
        if logged_on(sessions@, d) {
            let i = choose|i: int|
                0 <= i < sessions@.len() && (#[trigger] sessions@[i]).day == Some(d as i32);
            assert(more@[i] == sessions@[i]);
        }
        if d == day {
            assert(more@[sessions@.len() as int] == session);
        }
        if logged_on(more@, d) {
            let i = choose|i: int|
                0 <= i < more@.len() && (#[trigger] more@[i]).day == Some(d as i32);
            if i < sessions@.len() {
                assert(sessions@[i] == more@[i]);
            }
        }
    }
    assert(completed_days(weekdays@, more@, start, today as int) =~= before.insert(day as int));
}

/// How a skip is read: it has no reason where that is missing or has nothing but white
/// space in it; its day is the one it was scheduled for, or else the local day of its
/// time.
pub proof fn lemma_skip_read(skip: &Skip, unlogged: bool, day: Option<i32>)
    requires
        call_ensures(adherence::is_unlogged, (&skip.reason,), unlogged),
        call_ensures(adherence::skip_day, (skip,), day),
    ensures
        unlogged <==> skip.reason is None || forall|i: int|
            0 <= i < skip.reason->0@.len() ==> text::is_white(#[trigger] skip.reason->0@[i]),
        match calendar::parsed_day(skip.scheduled_date@, "%Y-%m-%d"@) {
            Some(scheduled) => day == Some(scheduled),
            None => calendar::is_zone_day(skip.ts_ms, day),
        },
{
}

/// Both ends of a window are in it; what has no day is not.
pub proof fn lemma_in_window(day: Option<i32>, start: i32, end: i32, r: bool)
    requires
        call_ensures(adherence::in_window, (day, start, end), r),
    ensures
        r <==> day is Some && start <= day->0 && day->0 <= end,
{
}

}
