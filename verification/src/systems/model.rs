//! The model of a track: its fitness, the floor that keeping the habit would hold, and
//! the deficit between them. It is computed from the log of sessions alone.

use vstd::prelude::*;

use crate::systems::adherence;
use crate::systems::adherence::{Adherence, DatedSession, DatedSkip};
use crate::systems::calendar;
use crate::systems::calendar::Now;
use crate::systems::records::{LoggedSession, Settings, Skip, Track};
use crate::systems::scalar;
use crate::systems::scalar::Scalar;
use std::collections::HashMap;

verus! {

broadcast use vstd::std_specs::hash::group_hash_axioms;

/// The fitness at the end of a day.
pub struct DatePoint<S> {
    pub date: String,
    pub value: S,
}

/// The load of a day.
pub struct LoadPoint<S> {
    pub date: String,
    pub load: S,
}

/// What is computed of a track.
pub struct Computed<S> {
    pub floor: S,
    pub deficit_load: S,
    pub deficit_sessions: S,
    pub alert_threshold: S,
    pub fitness: Vec<DatePoint<S>>,
    pub daily_load: Vec<LoadPoint<S>>,
    pub adherence: Adherence,
}

// --- What is computed ---

/// The number of days that the fitness is computed over; at least today.
pub open spec fn window_days(settings: Settings) -> int {
    if settings.warmup_days < 1 {
        1
    } else {
        settings.warmup_days as int
    }
}

/// The first of these days; today where the calendar does not reach back to it.
pub open spec fn window_start(settings: Settings, today: int) -> int {
    calendar::shifted(today, window_days(settings) - 1)
}

/// The loads that were logged on a day, in the order of the log.
pub open spec fn loads_on<S>(sessions: Seq<DatedSession<S>>, day: int) -> Seq<S> {
    sessions.filter(|s: DatedSession<S>| s.day == Some(day as i32)).map_values(
        |s: DatedSession<S>| s.load,
    )
}

/// `r` is the sum of the loads, added to zero one by one.
pub open spec fn is_total<S: Scalar>(loads: Seq<S>, r: S) -> bool
    decreases loads.len(),
{
    if loads.len() == 0 {
        scalar::is_whole(0, r)
    } else {
        exists|before: S|
            is_total(loads.drop_last(), before) && #[trigger] scalar::is_sum(
                before,
                loads.last(),
                r,
            )
    }
}

/// `r` is the part of the fitness that is left after `days` days: exp(-days / tau).
pub open spec fn is_left<S: Scalar>(days: S, tau: S, r: S) -> bool {
    exists|minus: S, ratio: S|
        scalar::is_negation(days, minus) && #[trigger] scalar::is_quotient(minus, tau, ratio)
            && scalar::is_exponential(ratio, r)
}

/// `r` is the part of the fitness that is left after one day.
pub open spec fn is_decay<S: Scalar>(tau: S, r: S) -> bool {
    exists|one: S| scalar::is_whole(1, one) && #[trigger] is_left(one, tau, r)
}

/// `r` is the fitness at the end of a day of the given load that began with `before`.
pub open spec fn is_next_fitness<S: Scalar>(before: S, decay: S, load: S, r: S) -> bool {
    exists|left: S|
        scalar::is_product(before, decay, left) && #[trigger] scalar::is_sum(left, load, r)
}

/// The loads of the days from `start` on.
pub open spec fn is_load_series<S: Scalar>(
    sessions: Seq<DatedSession<S>>,
    start: int,
    points: Seq<LoadPoint<S>>,
) -> bool {
    forall|i: int|
        0 <= i < points.len() ==> {
            &&& (#[trigger] points[i]).date@ == calendar::day_text(start + i)
            &&& is_total(loads_on(sessions, start + i), points[i].load)
        }
}

/// The fitness of the days from `start` on, with `initial` before them.
pub open spec fn is_fitness_from<S: Scalar>(
    initial: S,
    decay: S,
    start: int,
    loads: Seq<LoadPoint<S>>,
    points: Seq<DatePoint<S>>,
) -> bool {
    &&& points.len() == loads.len()
    &&& forall|i: int|
        0 <= i < points.len() ==> {
            &&& (#[trigger] points[i]).date@ == calendar::day_text(start + i)
            &&& is_next_fitness(
                if i == 0 {
                    initial
                } else {
                    points[i - 1].value
                },
                decay,
                loads[i].load,
                points[i].value,
            )
        }
}

/// The fitness of the days from `start` on, with none before them.
pub open spec fn is_fitness_series<S: Scalar>(
    tau: S,
    start: int,
    loads: Seq<LoadPoint<S>>,
    points: Seq<DatePoint<S>>,
) -> bool {
    exists|zero: S, decay: S|
        scalar::is_whole(0, zero) && is_decay(tau, decay) && #[trigger] is_fitness_from(
            zero,
            decay,
            start,
            loads,
            points,
        )
}

/// `r` is whether `a` is larger than zero.
pub open spec fn is_positivity<S: Scalar>(a: S, r: bool) -> bool {
    exists|zero: S| scalar::is_whole(0, zero) && #[trigger] scalar::is_excess(a, zero, r)
}

/// `r` is the part of the fitness that is lost over a period.
pub open spec fn is_loss<S: Scalar>(period: S, tau: S, r: S) -> bool {
    exists|one: S, left: S|
        scalar::is_whole(1, one) && is_left(period, tau, left) && #[trigger] scalar::is_difference(
            one,
            left,
            r,
        )
}

/// `r` is the fitness that the mean load once in each period holds: what is lost over
/// a period, the load brings back. Without a loss it is the load itself.
pub open spec fn is_floor<S: Scalar>(track: Track<S>, r: S) -> bool {
    exists|loss: S, positive: bool|
        is_loss(track.period_days, track.tau_days, loss) && #[trigger] is_positivity(loss, positive)
            && if positive {
            scalar::is_quotient(track.mean_load, loss, r)
        } else {
            r == track.mean_load
        }
}

/// `r` is how far the fitness is below the floor; zero where it is not.
pub open spec fn is_deficit<S: Scalar>(floor: S, fitness: S, r: S) -> bool {
    exists|gap: S, zero: S|
        scalar::is_difference(floor, fitness, gap) && scalar::is_whole(0, zero)
            && #[trigger] scalar::is_larger(gap, zero, r)
}

/// `r` is the deficit in sessions of the mean load; zero where that load is not
/// positive.
pub open spec fn is_session_deficit<S: Scalar>(deficit: S, mean_load: S, r: S) -> bool {
    exists|positive: bool| #[trigger]
        is_positivity(mean_load, positive) && if positive {
            scalar::is_quotient(deficit, mean_load, r)
        } else {
            scalar::is_whole(0, r)
        }
}

/// `r` is what is computed of a track on the day `today`.
pub open spec fn is_computed<S: Scalar>(
    track: Track<S>,
    sessions: Seq<DatedSession<S>>,
    skips: Seq<DatedSkip>,
    settings: Settings,
    today: int,
    r: Computed<S>,
) -> bool {
    let start = window_start(settings, today);
    &&& r.daily_load@.len() == today - start + 1
    &&& is_load_series(sessions, start, r.daily_load@)
    &&& is_fitness_series(track.tau_days, start, r.daily_load@, r.fitness@)
    &&& is_floor(track, r.floor)
    &&& is_deficit(r.floor, r.fitness@.last().value, r.deficit_load)
    &&& is_session_deficit(r.deficit_load, track.mean_load, r.deficit_sessions)
    &&& scalar::is_product(track.alert_mult, track.mean_load, r.alert_threshold)
    &&& r.adherence == adherence::adherence_of(track.weekdays@, sessions, skips, today)
}

// --- Computing it ---

/// A session at the end of the log adds its load to its own day.
pub proof fn lemma_loads_on_push<S>(sessions: Seq<DatedSession<S>>, s: DatedSession<S>, day: int)
    ensures
        loads_on(sessions.push(s), day) == if s.day == Some(day as i32) {
            loads_on(sessions, day).push(s.load)
        } else {
            loads_on(sessions, day)
        },
{
    let on_day = |s: DatedSession<S>| s.day == Some(day as i32);
    let load = |s: DatedSession<S>| s.load;
    sessions.lemma_filter_push(s, on_day);
    assert(sessions.filter(on_day).push(s).map_values(load) =~= sessions.filter(on_day).map_values(
        load,
    ).push(s.load));
}

proof fn lemma_total_push<S: Scalar>(loads: Seq<S>, before: S, load: S, total: S)
    requires
        is_total(loads, before),
        scalar::is_sum(before, load, total),
    ensures
        is_total(loads.push(load), total),
{
    assert(loads.push(load).drop_last() =~= loads);
    assert(loads.push(load).last() == load);
    assert(scalar::is_sum(before, loads.push(load).last(), total));
}

proof fn lemma_fitness_push<S: Scalar>(
    initial: S,
    decay: S,
    start: int,
    loads: Seq<LoadPoint<S>>,
    points: Seq<DatePoint<S>>,
    load: LoadPoint<S>,
    point: DatePoint<S>,
)
    requires
        is_fitness_from(initial, decay, start, loads, points),
        point.date@ == calendar::day_text(start + points.len()),
        is_next_fitness(
            if points.len() == 0 {
                initial
            } else {
                points.last().value
            },
            decay,
            load.load,
            point.value,
        ),
    ensures
        is_fitness_from(initial, decay, start, loads.push(load), points.push(point)),
{
    let longer = points.push(point);
    assert forall|i: int| 0 <= i < longer.len() implies {
        &&& (#[trigger] longer[i]).date@ == calendar::day_text(start + i)
        &&& is_next_fitness(
            if i == 0 {
                initial
            } else {
                longer[i - 1].value
            },
            decay,
            loads.push(load)[i].load,
            longer[i].value,
        )
    } by {
        if i < points.len() {
            assert(longer[i] == points[i]);
        }
    }
}

/// `buckets` holds the total of each day of the window that has a session.
spec fn are_buckets<S: Scalar>(
    sessions: Seq<DatedSession<S>>,
    start: int,
    end: int,
    buckets: Map<i32, S>,
) -> bool {
    forall|day: i32|
        start <= day <= end ==> if #[trigger] buckets.contains_key(day) {
            is_total(loads_on(sessions, day as int), buckets[day])
        } else {
            loads_on(sessions, day as int).len() == 0
        }
}

fn bucket_loads<S: Scalar>(sessions: &Vec<DatedSession<S>>, start: i32, end: i32) -> (r: HashMap<
    i32,
    S,
>)
    ensures
        are_buckets(sessions@, start as int, end as int, r@),
{
    let mut buckets: HashMap<i32, S> = HashMap::new();
    let mut i: usize = 0;
    proof {
        assert forall|day: i32| loads_on(#[trigger] sessions@.take(0), day as int).len() == 0 by {
            reveal(Seq::filter);
        }
    }
    while i < sessions.len()
        invariant
            i <= sessions@.len(),
            are_buckets(sessions@.take(i as int), start as int, end as int, buckets@),
        decreases sessions@.len() - i,
    {
        let s = &sessions[i];
        let ghost before = buckets@;
        if let Some(day) = s.day {
            if start <= day && day <= end {
                let so_far = match buckets.get(&day) {
                    Some(load) => *load,
                    None => S::whole(0),
                };
                let total = so_far.plus(s.load);
                proof {
                    let loads = loads_on(sessions@.take(i as int), day as int);
                    lemma_total_push(loads, so_far, s.load, total);
                }
                buckets.insert(day, total);
            }
        }
        proof {
            let taken = sessions@.take(i as int);
            assert(sessions@.take(i + 1) =~= taken.push(*s));
            assert forall|day: i32| start <= day <= end implies if #[trigger] buckets@.contains_key(
                day,
            ) {
                is_total(loads_on(sessions@.take(i + 1), day as int), buckets@[day])
            } else {
                loads_on(sessions@.take(i + 1), day as int).len() == 0
            } by {
                lemma_loads_on_push(taken, *s, day as int);
                assert(before.contains_key(day) ==> is_total(
                    loads_on(taken, day as int),
                    before[day],
                ));
            }
        }
        i = i + 1;
    }
    assert(sessions@.take(sessions@.len() as int) =~= sessions@);
    buckets
}

fn left<S: Scalar>(days: S, tau: S) -> (r: S)
    ensures
        is_left(days, tau, r),
{
    let minus = days.negated();
    let ratio = minus.over(tau);
    let r = ratio.exponential();
    assert(scalar::is_quotient(minus, tau, ratio));
    r
}

fn positive<S: Scalar>(a: S) -> (r: bool)
    ensures
        is_positivity(a, r),
{
    let zero = S::whole(0);
    let r = a.exceeds(zero);
    assert(scalar::is_excess(a, zero, r));
    r
}

fn floor_of<S: Scalar>(track: &Track<S>) -> (r: S)
    ensures
        is_floor(*track, r),
{
    let one = S::whole(1);
    let kept = left(track.period_days, track.tau_days);
    let loss = one.minus(kept);
    assert(scalar::is_difference(one, kept, loss));
    if positive(loss) {
        track.mean_load.over(loss)
    } else {
        track.mean_load
    }
}

fn sessions_short<S: Scalar>(deficit: S, mean_load: S) -> (r: S)
    ensures
        is_session_deficit(deficit, mean_load, r),
{
    if positive(mean_load) {
        deficit.over(mean_load)
    } else {
        S::whole(0)
    }
}

fn bucket<S: Scalar>(
    buckets: &HashMap<i32, S>,
    Ghost(sessions): Ghost<Seq<DatedSession<S>>>,
    Ghost(start): Ghost<int>,
    Ghost(end): Ghost<int>,
    day: i32,
) -> (r: S)
    requires
        are_buckets(sessions, start, end, buckets@),
        start <= day <= end,
    ensures
        is_total(loads_on(sessions, day as int), r),
{
    match buckets.get(&day) {
        Some(load) => *load,
        None => S::whole(0),
    }
}

/// The series of loads and of fitness over the days from `start` to `today`.
fn series<S: Scalar>(tau: S, sessions: &Vec<DatedSession<S>>, start: i32, today: i32) -> (r: (
    Vec<LoadPoint<S>>,
    Vec<DatePoint<S>>,
))
    requires
        calendar::in_calendar(start as int),
        calendar::in_calendar(today as int),
        start <= today,
    ensures
        r.0@.len() == today - start + 1,
        is_load_series(sessions@, start as int, r.0@),
        is_fitness_series(tau, start as int, r.0@, r.1@),
{
    let buckets = bucket_loads(sessions, start, today);
    let one = S::whole(1);
    let decay = left(one, tau);
    assert(is_decay(tau, decay));
    let zero = S::whole(0);
    let mut before = zero;
    let mut loads: Vec<LoadPoint<S>> = Vec::new();
    let mut fitness: Vec<DatePoint<S>> = Vec::new();
    let mut day: i32 = start;
    while day <= today
        invariant
            calendar::in_calendar(start as int),
            calendar::in_calendar(today as int),
            start <= day <= today + 1,
            are_buckets(sessions@, start as int, today as int, buckets@),
            loads@.len() == day - start,
            is_load_series(sessions@, start as int, loads@),
            is_fitness_from(zero, decay, start as int, loads@, fitness@),
            before == if day == start {
                zero
            } else {
                fitness@.last().value
            },
        decreases today + 1 - day,
    {
        let load = bucket(&buckets, Ghost(sessions@), Ghost(start as int), Ghost(today as int), day);
        let kept = before.times(decay);
        let value = kept.plus(load);
        assert(scalar::is_sum(kept, load, value));
        let point = DatePoint { date: calendar::write_day(day), value };
        let load_point = LoadPoint { date: calendar::write_day(day), load };
        proof {
            lemma_fitness_push(zero, decay, start as int, loads@, fitness@, load_point, point);
        }
        fitness.push(point);
        loads.push(load_point);
        before = value;
        day = day + 1;
    }
    (loads, fitness)
}

/// What is computed of a track on the day `today`, from its dated sessions and skips.
pub fn compute_on<S: Scalar>(
    track: &Track<S>,
    sessions: &Vec<DatedSession<S>>,
    skips: &Vec<DatedSkip>,
    settings: &Settings,
    today: i32,
) -> (r: Computed<S>)
    requires
        calendar::in_calendar(today as int),
    ensures
        is_computed(*track, sessions@, skips@, *settings, today as int, r),
{
    let warmup: i64 = if settings.warmup_days < 1 {
        1
    } else {
        settings.warmup_days
    };
    let start = calendar::days_before(today, warmup - 1);
    let (daily_load, fitness) = series(track.tau_days, sessions, start, today);
    let fitness_today = fitness[fitness.len() - 1].value;
    let floor = floor_of(track);
    let gap = floor.minus(fitness_today);
    let zero = S::whole(0);
    let deficit_load = gap.larger(zero);
    assert(scalar::is_larger(gap, zero, deficit_load));
    Computed {
        floor,
        deficit_load,
        deficit_sessions: sessions_short(deficit_load, track.mean_load),
        alert_threshold: track.alert_mult.times(track.mean_load),
        fitness,
        daily_load,
        adherence: adherence::adherence(&track.weekdays, sessions, skips, today),
    }
}

/// `dated` holds the sessions, each with its local day.
pub open spec fn are_dated_sessions<S>(
    sessions: Seq<LoggedSession<S>>,
    dated: Seq<DatedSession<S>>,
) -> bool {
    &&& dated.len() == sessions.len()
    &&& forall|i: int|
        0 <= i < dated.len() ==> {
            &&& calendar::is_zone_day(sessions[i].ts_ms, (#[trigger] dated[i]).day)
            &&& dated[i].load == sessions[i].load
        }
}

/// `dated` holds the skips, each with its day.
pub open spec fn are_dated_skips(skips: Seq<Skip>, dated: Seq<DatedSkip>) -> bool {
    &&& dated.len() == skips.len()
    &&& forall|i: int|
        0 <= i < dated.len() ==> {
            &&& adherence::is_skip_day(skips[i], (#[trigger] dated[i]).day)
            &&& dated[i].unlogged == adherence::unlogged(skips[i].reason)
        }
}

fn date_sessions<S: Scalar>(sessions: &Vec<LoggedSession<S>>) -> (r: Vec<DatedSession<S>>)
    ensures
        are_dated_sessions(sessions@, r@),
{
    let mut r: Vec<DatedSession<S>> = Vec::new();
    let mut i: usize = 0;
    while i < sessions.len()
        invariant
            i <= sessions@.len(),
            are_dated_sessions(sessions@.take(i as int), r@),
        decreases sessions@.len() - i,
    {
        let s = &sessions[i];
        r.push(DatedSession { day: calendar::local_date(s.ts_ms), load: s.load });
        i = i + 1;
    }
    assert(sessions@.take(sessions@.len() as int) =~= sessions@);
    r
}

fn date_skips(skips: &Vec<Skip>) -> (r: Vec<DatedSkip>)
    ensures
        are_dated_skips(skips@, r@),
{
    let mut r: Vec<DatedSkip> = Vec::new();
    let mut i: usize = 0;
    while i < skips.len()
        invariant
            i <= skips@.len(),
            are_dated_skips(skips@.take(i as int), r@),
        decreases skips@.len() - i,
    {
        let skip = &skips[i];
        r.push(
            DatedSkip {
                day: adherence::skip_day(skip),
                unlogged: adherence::is_unlogged(&skip.reason),
            },
        );
        i = i + 1;
    }
    assert(skips@.take(skips@.len() as int) =~= skips@);
    r
}

/// `r` is what is computed of a track now, whichever local days its sessions and skips
/// have on this machine.
pub open spec fn is_computed_now<S: Scalar>(
    track: Track<S>,
    sessions: Seq<LoggedSession<S>>,
    skips: Seq<Skip>,
    settings: Settings,
    now: Now,
    r: Computed<S>,
) -> bool {
    exists|dated_sessions: Seq<DatedSession<S>>, dated_skips: Seq<DatedSkip>|
        are_dated_sessions(sessions, dated_sessions) && are_dated_skips(skips, dated_skips)
            && #[trigger] is_computed(
            track,
            dated_sessions,
            dated_skips,
            settings,
            now.day as int,
            r,
        )
}

/// What is computed of a track now, from the log of its sessions and skips.
pub fn compute<S: Scalar>(
    track: &Track<S>,
    sessions: &Vec<LoggedSession<S>>,
    skips: &Vec<Skip>,
    settings: &Settings,
    now: Now,
) -> (r: Computed<S>)
    requires
        now.valid(),
    ensures
        is_computed_now(*track, sessions@, skips@, *settings, now, r),
{
    let dated_sessions = date_sessions(sessions);
    let dated_skips = date_skips(skips);
    let r = compute_on(track, &dated_sessions, &dated_skips, settings, now.day);
    assert(is_computed(*track, dated_sessions@, dated_skips@, *settings, now.day as int, r));
    r
}

// --- Laws ---

/// Both series have one point for each day of the window, the last of them today's.
pub proof fn lemma_series_cover_window<S: Scalar>(
    track: Track<S>,
    sessions: Seq<DatedSession<S>>,
    skips: Seq<DatedSkip>,
    settings: Settings,
    today: int,
    computed: Computed<S>,
)
    requires
        is_computed(track, sessions, skips, settings, today, computed),
        calendar::in_calendar(today - (window_days(settings) - 1)),
    ensures
        computed.daily_load@.len() == window_days(settings),
        computed.fitness@.len() == window_days(settings),
        computed.daily_load@.last().date@ == calendar::day_text(today),
        computed.fitness@.last().date@ == calendar::day_text(today),
        is_total(loads_on(sessions, today), computed.daily_load@.last().load),
{
    let loads = computed.daily_load@;
    let fitness = computed.fitness@;
    let start = window_start(settings, today);
    let last = window_days(settings) - 1;
    assert(start + last == today);
    assert(loads.len() == last + 1);
    let (zero, decay) = choose|zero: S, decay: S|
        scalar::is_whole(0, zero) && is_decay(track.tau_days, decay) && #[trigger] is_fitness_from(
            zero,
            decay,
            start,
            loads,
            fitness,
        );
    assert(is_fitness_from(zero, decay, start, loads, fitness));
    assert(fitness.len() == loads.len());
    assert(loads.last() == loads[last]);
    assert(loads[last].date@ == calendar::day_text(start + last));
    assert(is_total(loads_on(sessions, start + last), loads[last].load));
    assert(fitness.last() == fitness[last]);
    assert(fitness[last].date@ == calendar::day_text(start + last));
}

/// At any present that the clock can show, both series have one point for each day of
/// the window, as long as the window does not reach from the epoch to the calendar's
/// first day.
pub proof fn lemma_series_now<S: Scalar>(
    track: Track<S>,
    sessions: Seq<LoggedSession<S>>,
    skips: Seq<Skip>,
    settings: Settings,
    now: Now,
    computed: Computed<S>,
)
    requires
        now.valid(),
        is_computed_now(track, sessions, skips, settings, now, computed),
        window_days(settings) <= calendar::EPOCH_DAY - calendar::MIN_DAY,
    ensures
        computed.daily_load@.len() == window_days(settings),
        computed.fitness@.len() == window_days(settings),
        computed.daily_load@.last().date@ == calendar::day_text(now.day as int),
        computed.fitness@.last().date@ == calendar::day_text(now.day as int),
{
    let today = now.day as int;
    let (dated_sessions, dated_skips) = choose|
        dated_sessions: Seq<DatedSession<S>>,
        dated_skips: Seq<DatedSkip>,
    |
        are_dated_sessions(sessions, dated_sessions) && are_dated_skips(skips, dated_skips)
            && #[trigger] is_computed(
            track,
            dated_sessions,
            dated_skips,
            settings,
            today,
            computed,
        );
    assert(calendar::utc_day(now.ms) >= calendar::EPOCH_DAY);
    lemma_series_cover_window(track, dated_sessions, dated_skips, settings, today, computed);
}

/// The load of a day without a session is zero.
pub proof fn lemma_no_session_no_load<S: Scalar>(
    track: Track<S>,
    sessions: Seq<DatedSession<S>>,
    skips: Seq<DatedSkip>,
    settings: Settings,
    today: int,
    computed: Computed<S>,
    i: int,
)
    requires
        is_computed(track, sessions, skips, settings, today, computed),
        0 <= i < computed.daily_load@.len(),
        !adherence::has_session(sessions, window_start(settings, today) + i),
    ensures
        scalar::is_whole(0, computed.daily_load@[i].load),
{
    let day = window_start(settings, today) + i;
    lemma_no_loads(sessions, day);
    assert(is_total(loads_on(sessions, day), computed.daily_load@[i].load));
}

proof fn lemma_no_loads<S>(sessions: Seq<DatedSession<S>>, day: int)
    requires
        !adherence::has_session(sessions, day),
    ensures
        loads_on(sessions, day).len() == 0,
    decreases sessions.len(),
{
    if sessions.len() == 0 {
        reveal(Seq::filter);
    } else {
        let front = sessions.drop_last();
        assert(sessions =~= front.push(sessions.last()));
        assert forall|i: int| 0 <= i < front.len() implies (#[trigger] front[i]).day != Some(
            day as i32,
        ) by {
            assert(front[i] == sessions[i]);
        }
        lemma_no_loads(front, day);
        lemma_loads_on_push(front, sessions.last(), day);
        assert(sessions[sessions.len() - 1].day != Some(day as i32));
    }
}

/// A further session in the log counts on its own day, beside those that were logged
/// before it, and on no other day.
pub proof fn lemma_session_counts_on_its_day<S>(
    session: DatedSession<S>,
    sessions: Seq<DatedSession<S>>,
    day: int,
)
    ensures
        loads_on(seq![session] + sessions, day) == if session.day == Some(day as i32) {
            seq![session.load] + loads_on(sessions, day)
        } else {
            loads_on(sessions, day)
        },
{
    let on_day = |s: DatedSession<S>| s.day == Some(day as i32);
    let load = |s: DatedSession<S>| s.load;
    Seq::filter_distributes_over_add(seq![session], sessions, on_day);
    reveal_with_fuel(Seq::filter, 2);
    assert(seq![session].drop_last() =~= Seq::<DatedSession<S>>::empty());
    let rest = sessions.filter(on_day);
    if on_day(session) {
        assert(seq![session].filter(on_day) =~= seq![session]);
        assert((seq![session] + rest).map_values(load) =~= seq![session.load] + rest.map_values(
            load,
        ));
    } else {
        assert(seq![session].filter(on_day) + rest =~= rest);
    }
}

/// The number of sessions that the days from `start` to `end` hold together.
pub open spec fn bucketed<S>(sessions: Seq<DatedSession<S>>, start: int, end: int) -> nat
    decreases end - start + 1,
{
    if end < start {
        0
    } else {
        bucketed(sessions, start, end - 1) + loads_on(sessions, end).len()
    }
}

/// Each session of the window counts on exactly one day: the days of the window hold
/// together as many sessions as lie in it.
pub proof fn lemma_each_session_counts_once<S>(
    sessions: Seq<DatedSession<S>>,
    start: int,
    end: int,
)
    requires
        calendar::in_calendar(start),
        calendar::in_calendar(end),
    ensures
        bucketed(sessions, start, end) == sessions.filter(
            |s: DatedSession<S>| adherence::within(s.day, start, end),
        ).len(),
    decreases sessions.len(),
{
    let inside = |s: DatedSession<S>| adherence::within(s.day, start, end);
    if sessions.len() == 0 {
        reveal(Seq::filter);
        lemma_bucketed_none(sessions, start, end);
    } else {
        let front = sessions.drop_last();
        assert(sessions =~= front.push(sessions.last()));
        lemma_each_session_counts_once(front, start, end);
        front.lemma_filter_push(sessions.last(), inside);
        lemma_bucketed_push(front, sessions.last(), start, end);
    }
}

proof fn lemma_bucketed_none<S>(sessions: Seq<DatedSession<S>>, start: int, end: int)
    requires
        sessions.len() == 0,
    ensures
        bucketed(sessions, start, end) == 0,
    decreases end - start + 1,
{
    reveal(Seq::filter);
    if start <= end {
        lemma_bucketed_none(sessions, start, end - 1);
    }
}

proof fn lemma_bucketed_push<S>(
    sessions: Seq<DatedSession<S>>,
    s: DatedSession<S>,
    start: int,
    end: int,
)
    requires
        calendar::in_calendar(start),
        start <= end ==> calendar::in_calendar(end),
    ensures
        bucketed(sessions.push(s), start, end) == bucketed(sessions, start, end)
            + if adherence::within(s.day, start, end) {
            1nat
        } else {
            0
        },
    decreases end - start + 1,
{
    if start <= end {
        lemma_bucketed_push(sessions, s, start, end - 1);
        lemma_loads_on_push(sessions, s, end);
    }
}

/// A session outside the windows changes nothing: the model has no memory beyond them.
pub proof fn lemma_outside_window_does_not_count<S: Scalar>(
    track: Track<S>,
    sessions: Seq<DatedSession<S>>,
    session: DatedSession<S>,
    skips: Seq<DatedSkip>,
    settings: Settings,
    today: int,
    computed: Computed<S>,
)
    requires
        calendar::in_calendar(today),
        !adherence::within(session.day, window_start(settings, today), today),
        !adherence::within(session.day, adherence::adherence_start(today), today),
    ensures
        is_computed(track, sessions.push(session), skips, settings, today, computed)
            == is_computed(track, sessions, skips, settings, today, computed),
{
    let start = window_start(settings, today);
    let points = computed.daily_load@;
    if points.len() == today - start + 1 {
        assert forall|i: int| 0 <= i < points.len() implies loads_on(
            sessions.push(session),
            start + i,
        ) == #[trigger] loads_on(sessions, start + i) by {
            lemma_loads_on_push(sessions, session, start + i);
        }
        assert(is_load_series(sessions.push(session), start, points) == is_load_series(
            sessions,
            start,
            points,
        ));
    }
    adherence::lemma_session_completes(
        track.weekdays@,
        sessions,
        session,
        adherence::adherence_start(today),
        today,
    );
}

}
