//! Laws of the model, written out in the operations of the numbers.

use vstd::prelude::*;

use crate::listing;
use crate::systems::adherence::{DatedSession, DatedSkip};
use crate::systems::adherence_laws;
use crate::systems::calendar;
use crate::systems::calendar::Now;
use crate::systems::model;
use crate::systems::model::{Computed, DatePoint, LoadPoint};
use crate::systems::records::{LoggedSession, Settings, Skip, Track};
use crate::systems::scalar;
use crate::systems::scalar::Scalar;

verus! {

/// The first day of the last `warmup_days` days, of today alone where there are fewer;
/// today where the calendar does not reach back to it.
pub open spec fn first_day(warmup_days: i64, today: int) -> int {
    let days = if warmup_days < 1 {
        1
    } else {
        warmup_days as int
    };
    if today - (days - 1) >= -95_746_129 {
        today - (days - 1)
    } else {
        today
    }
}

/// `sums` adds the loads of the sessions at `places` to zero, one by one, and these are
/// all sessions of a day.
pub open spec fn adds_up<S: Scalar>(
    sessions: Seq<DatedSession<S>>,
    day: int,
    places: Seq<int>,
    sums: Seq<S>,
) -> bool {
    &&& listing::are_places(
        sessions,
        |s: DatedSession<S>| s.day == Some(day as i32),
        places,
    )
    &&& sums.len() == places.len() + 1
    &&& call_ensures(S::whole, (0u32,), sums[0])
    &&& forall|k: int|
        0 <= k < places.len() ==> call_ensures(
            S::plus,
            (sums[k], sessions[#[trigger] places[k]].load),
            sums[k + 1],
        )
}

/// `load` is the sum of the loads of the sessions of a day.
pub open spec fn is_load_of_day<S: Scalar>(
    sessions: Seq<DatedSession<S>>,
    day: int,
    load: S,
) -> bool {
    exists|places: Seq<int>, sums: Seq<S>| #[trigger]
        adds_up(sessions, day, places, sums) && load == sums.last()
}

/// `decay` is exp(-1 / tau).
pub open spec fn decay_by<S: Scalar>(tau: S, one: S, minus: S, ratio: S, decay: S) -> bool {
    &&& call_ensures(S::whole, (1u32,), one)
    &&& call_ensures(S::negated, (one,), minus)
    &&& call_ensures(S::over, (minus, tau), ratio)
    &&& call_ensures(S::exponential, (ratio,), decay)
}

/// `after` is `before` times `decay`, plus `load`.
pub open spec fn carries_on<S: Scalar>(before: S, decay: S, load: S, after: S) -> bool {
    exists|kept: S|
        call_ensures(S::times, (before, decay), kept) && #[trigger] call_ensures(
            S::plus,
            (kept, load),
            after,
        )
}

/// The fitness begins at zero; each day it decays and the day's load is added.
pub open spec fn fitness_by<S: Scalar>(
    zero: S,
    decay: S,
    loads: Seq<LoadPoint<S>>,
    points: Seq<DatePoint<S>>,
) -> bool {
    &&& call_ensures(S::whole, (0u32,), zero)
    &&& forall|i: int|
        0 <= i < points.len() ==> carries_on(
            if i == 0 {
                zero
            } else {
                points[i - 1].value
            },
            decay,
            loads[i].load,
            (#[trigger] points[i]).value,
        )
}

/// `floor` is mean_load / (1 - exp(-period_days / tau_days)), or mean_load where that
/// divisor is not positive.
pub open spec fn floor_by<S: Scalar>(
    track: Track<S>,
    minus: S,
    ratio: S,
    left: S,
    one: S,
    loss: S,
    zero: S,
    positive: bool,
    floor: S,
) -> bool {
    &&& call_ensures(S::negated, (track.period_days,), minus)
    &&& call_ensures(S::over, (minus, track.tau_days), ratio)
    &&& call_ensures(S::exponential, (ratio,), left)
    &&& call_ensures(S::whole, (1u32,), one)
    &&& call_ensures(S::minus, (one, left), loss)
    &&& call_ensures(S::whole, (0u32,), zero)
    &&& call_ensures(S::exceeds, (loss, zero), positive)
    &&& if positive {
        call_ensures(S::over, (track.mean_load, loss), floor)
    } else {
        floor == track.mean_load
    }
}

/// `deficit` is the larger of floor - fitness and zero.
pub open spec fn deficit_by<S: Scalar>(floor: S, fitness: S, gap: S, zero: S, deficit: S) -> bool {
    &&& call_ensures(S::minus, (floor, fitness), gap)
    &&& call_ensures(S::whole, (0u32,), zero)
    &&& call_ensures(S::larger, (gap, zero), deficit)
}

/// `r` is deficit / mean_load, or zero where the mean load is not positive.
pub open spec fn sessions_by<S: Scalar>(
    deficit: S,
    mean_load: S,
    zero: S,
    positive: bool,
    r: S,
) -> bool {
    &&& call_ensures(S::whole, (0u32,), zero)
    &&& call_ensures(S::exceeds, (mean_load, zero), positive)
    &&& if positive {
        call_ensures(S::over, (deficit, mean_load), r)
    } else {
        call_ensures(S::whole, (0u32,), r)
    }
}

/// The model of a track on a day, in full.
pub open spec fn is_model<S: Scalar>(
    track: Track<S>,
    sessions: Seq<DatedSession<S>>,
    skips: Seq<DatedSkip>,
    warmup_days: i64,
    today: int,
    c: Computed<S>,
) -> bool {
    let start = first_day(warmup_days, today);
    let loads = c.daily_load@;
    let fitness = c.fitness@;
    &&& loads.len() == today - start + 1
    &&& fitness.len() == loads.len()
    &&& forall|i: int|
        0 <= i < loads.len() ==> {
            &&& (#[trigger] loads[i]).date@ == calendar::formatted_day(
                (start + i) as i32,
                "%Y-%m-%d"@,
            )
            &&& is_load_of_day(sessions, start + i, loads[i].load)
        }
    &&& forall|i: int|
        0 <= i < fitness.len() ==> (#[trigger] fitness[i]).date@ == loads[i].date@
    &&& exists|zero: S, one: S, minus: S, ratio: S, decay: S|
        #![trigger decay_by(track.tau_days, one, minus, ratio, decay), fitness_by(zero, decay, loads, fitness)]
        decay_by(track.tau_days, one, minus, ratio, decay) && fitness_by(
            zero,
            decay,
            loads,
            fitness,
        )
    &&& exists|minus: S, ratio: S, left: S, one: S, loss: S, zero: S, positive: bool| #[trigger]
        floor_by(track, minus, ratio, left, one, loss, zero, positive, c.floor)
    &&& exists|gap: S, zero: S| #[trigger]
        deficit_by(c.floor, fitness[fitness.len() - 1].value, gap, zero, c.deficit_load)
    &&& exists|zero: S, positive: bool| #[trigger]
        sessions_by(c.deficit_load, track.mean_load, zero, positive, c.deficit_sessions)
    &&& call_ensures(S::times, (track.alert_mult, track.mean_load), c.alert_threshold)
    &&& adherence_laws::counts(track.weekdays@, sessions, skips, today, c.adherence)
}

// --- Proofs ---

proof fn lemma_total_sums<S: Scalar>(loads: Seq<S>, r: S) -> (sums: Seq<S>)
    requires
        model::is_total(loads, r),
    ensures
        sums.len() == loads.len() + 1,
        call_ensures(S::whole, (0u32,), sums[0]),
        sums.last() == r,
        forall|k: int|
            0 <= k < loads.len() ==> call_ensures(
                S::plus,
                (sums[k], #[trigger] loads[k]),
                sums[k + 1],
            ),
    decreases loads.len(),
{
    if loads.len() == 0 {
        seq![r]
    } else {
        let front = loads.drop_last();
        let p = choose|p: S|
            model::is_total(front, p) && #[trigger] scalar::is_sum(p, loads.last(), r);
        let before = lemma_total_sums(front, p);
        let sums = before.push(r);
        assert forall|k: int| 0 <= k < loads.len() implies call_ensures(
            S::plus,
            (sums[k], #[trigger] loads[k]),
            sums[k + 1],
        ) by {
            assert(sums[k] == before[k]);
            if k < front.len() {
                assert(front[k] == loads[k]);
                assert(sums[k + 1] == before[k + 1]);
            } else {
                assert(before[k] == p);
            }
        }
        assert(sums[0] == before[0]);
        sums
    }
}

proof fn lemma_load_of_day<S: Scalar>(sessions: Seq<DatedSession<S>>, day: int, load: S)
    requires
        model::is_total(model::loads_on(sessions, day), load),
    ensures
        is_load_of_day(sessions, day, load),
{
    let keep = |s: DatedSession<S>| s.day == Some(day as i32);
    let places = listing::lemma_filter_places(sessions, keep);
    let loads = model::loads_on(sessions, day);
    let sums = lemma_total_sums(loads, load);
    assert(loads.len() == places.len());
    assert forall|k: int| 0 <= k < places.len() implies call_ensures(
        S::plus,
        (sums[k], sessions[#[trigger] places[k]].load),
        sums[k + 1],
    ) by {
        assert(loads[k] == sessions.filter(keep)[k].load);
        assert(sessions.filter(keep)[k] == sessions[places[k]]);
    }
    assert(adds_up(sessions, day, places, sums));
}

proof fn lemma_fitness_by<S: Scalar>(
    tau: S,
    start: int,
    loads: Seq<LoadPoint<S>>,
    points: Seq<DatePoint<S>>,
)
    requires
        model::is_fitness_series(tau, start, loads, points),
    ensures
        points.len() == loads.len(),
        forall|i: int|
            0 <= i < points.len() ==> (#[trigger] points[i]).date@ == calendar::day_text(start + i),
        exists|zero: S, one: S, minus: S, ratio: S, decay: S|
            #![trigger decay_by(tau, one, minus, ratio, decay), fitness_by(zero, decay, loads, points)]
            decay_by(tau, one, minus, ratio, decay) && fitness_by(zero, decay, loads, points),
{
    let (zero, decay) = choose|zero: S, decay: S|
        scalar::is_whole(0, zero) && model::is_decay(tau, decay)
            && #[trigger] model::is_fitness_from(zero, decay, start, loads, points);
    let one = choose|one: S| scalar::is_whole(1, one) && #[trigger] model::is_left(one, tau, decay);
    let (minus, ratio) = choose|minus: S, ratio: S|
        scalar::is_negation(one, minus) && #[trigger] scalar::is_quotient(minus, tau, ratio)
            && scalar::is_exponential(ratio, decay);
    assert(decay_by(tau, one, minus, ratio, decay));
    assert forall|i: int| 0 <= i < points.len() implies carries_on(
        if i == 0 {
            zero
        } else {
            points[i - 1].value
        },
        decay,
        loads[i].load,
        (#[trigger] points[i]).value,
    ) by {
        let before = if i == 0 {
            zero
        } else {
            points[i - 1].value
        };
        assert(model::is_next_fitness(before, decay, loads[i].load, points[i].value));
        let kept = choose|kept: S|
            scalar::is_product(before, decay, kept) && #[trigger] scalar::is_sum(
                kept,
                loads[i].load,
                points[i].value,
            );
        assert(call_ensures(S::plus, (kept, loads[i].load), points[i].value));
    }
    assert(fitness_by(zero, decay, loads, points));
}

proof fn lemma_floor_by<S: Scalar>(track: Track<S>, floor: S)
    requires
        model::is_floor(track, floor),
    ensures
        exists|minus: S, ratio: S, left: S, one: S, loss: S, zero: S, positive: bool| #[trigger]
            floor_by(track, minus, ratio, left, one, loss, zero, positive, floor),
{
    let (loss, positive) = choose|loss: S, positive: bool|
        model::is_loss(track.period_days, track.tau_days, loss) && #[trigger] model::is_positivity(
            loss,
            positive,
        ) && if positive {
            scalar::is_quotient(track.mean_load, loss, floor)
        } else {
            floor == track.mean_load
        };
    let zero = choose|zero: S|
        scalar::is_whole(0, zero) && #[trigger] scalar::is_excess(loss, zero, positive);
    let (one, left) = choose|one: S, left: S|
        scalar::is_whole(1, one) && model::is_left(track.period_days, track.tau_days, left)
            && #[trigger] scalar::is_difference(one, left, loss);
    let (minus, ratio) = choose|minus: S, ratio: S|
        scalar::is_negation(track.period_days, minus) && #[trigger] scalar::is_quotient(
            minus,
            track.tau_days,
            ratio,
        ) && scalar::is_exponential(ratio, left);
    assert(floor_by(track, minus, ratio, left, one, loss, zero, positive, floor));
}

/// What is computed from dated sessions and skips is the model in full.
pub proof fn lemma_computed_is_model<S: Scalar>(
    track: Track<S>,
    sessions: Seq<DatedSession<S>>,
    skips: Seq<DatedSkip>,
    settings: Settings,
    today: int,
    c: Computed<S>,
)
    requires
        -95_746_129 <= today <= 95_745_399,
        model::is_computed(track, sessions, skips, settings, today, c),
    ensures
        is_model(track, sessions, skips, settings.warmup_days, today, c),
{
    let start = first_day(settings.warmup_days, today);
    assert(start == model::window_start(settings, today));
    let loads = c.daily_load@;
    let fitness = c.fitness@;
    assert forall|i: int| 0 <= i < loads.len() implies (#[trigger] loads[i]).date@
        == calendar::formatted_day((start + i) as i32, "%Y-%m-%d"@) && is_load_of_day(
        sessions,
        start + i,
        loads[i].load,
    ) by {
        assert(model::is_total(model::loads_on(sessions, start + i), loads[i].load));
        lemma_load_of_day(sessions, start + i, loads[i].load);
    }
    lemma_fitness_by(track.tau_days, start, loads, fitness);
    lemma_floor_by(track, c.floor);
    let last = fitness[fitness.len() - 1].value;
    assert(fitness.last().value == last);
    let (gap, zero) = choose|gap: S, zero: S|
        scalar::is_difference(c.floor, last, gap) && scalar::is_whole(0, zero)
            && #[trigger] scalar::is_larger(gap, zero, c.deficit_load);
    assert(deficit_by(c.floor, last, gap, zero, c.deficit_load));
    let positive = choose|positive: bool| #[trigger]
        model::is_positivity(track.mean_load, positive) && if positive {
            scalar::is_quotient(c.deficit_load, track.mean_load, c.deficit_sessions)
        } else {
            scalar::is_whole(0, c.deficit_sessions)
        };
    let z = choose|z: S|
        scalar::is_whole(0, z) && #[trigger] scalar::is_excess(track.mean_load, z, positive);
    assert(sessions_by(c.deficit_load, track.mean_load, z, positive, c.deficit_sessions));
    adherence_laws::lemma_adherence_counts(track.weekdays@, sessions, skips, today);
}

/// The model of a track is computed in full from its dated sessions and skips.
pub proof fn lemma_compute_on<S: Scalar>(
    track: &Track<S>,
    sessions: &Vec<DatedSession<S>>,
    skips: &Vec<DatedSkip>,
    settings: &Settings,
    today: i32,
    c: Computed<S>,
)
    requires
        -95_746_129 <= today <= 95_745_399,
        call_ensures(model::compute_on::<S>, (track, sessions, skips, settings, today), c),
    ensures
        is_model(*track, sessions@, skips@, settings.warmup_days, today as int, c),
{
    lemma_computed_is_model(*track, sessions@, skips@, *settings, today as int, c);
}

/// Whether a text holds nothing but white space, or there is none.
pub open spec fn says_nothing(reason: Option<String>) -> bool {
    match reason {
        Some(reason) => forall|i: int|
            0 <= i < reason@.len() ==> crate::text::is_white(#[trigger] reason@[i]),
        None => true,
    }
}

/// The sessions and skips with their days: of a session the local day of its time, of a
/// skip the day it was scheduled for, or the local day of its time where that is no day.
pub open spec fn are_dated<S>(
    sessions: Seq<LoggedSession<S>>,
    skips: Seq<Skip>,
    dated_sessions: Seq<DatedSession<S>>,
    dated_skips: Seq<DatedSkip>,
) -> bool {
    &&& dated_sessions.len() == sessions.len()
    &&& forall|i: int|
        0 <= i < sessions.len() ==> {
            &&& calendar::is_zone_day(sessions[i].ts_ms, (#[trigger] dated_sessions[i]).day)
            &&& dated_sessions[i].load == sessions[i].load
        }
    &&& dated_skips.len() == skips.len()
    &&& forall|i: int|
        0 <= i < skips.len() ==> {
            &&& (#[trigger] dated_skips[i]).unlogged == says_nothing(skips[i].reason)
            &&& match calendar::parsed_day(skips[i].scheduled_date@, "%Y-%m-%d"@) {
                Some(day) => dated_skips[i].day == Some(day),
                None => calendar::is_zone_day(skips[i].ts_ms, dated_skips[i].day),
            }
        }
}

/// The model now of a track with a log, whatever days the machine's zone gives.
pub open spec fn is_model_now<S: Scalar>(
    track: Track<S>,
    sessions: Seq<LoggedSession<S>>,
    skips: Seq<Skip>,
    warmup_days: i64,
    today: int,
    c: Computed<S>,
) -> bool {
    exists|dated_sessions: Seq<DatedSession<S>>, dated_skips: Seq<DatedSkip>| #[trigger]
        are_dated(sessions, skips, dated_sessions, dated_skips) && is_model(
            track,
            dated_sessions,
            dated_skips,
            warmup_days,
            today,
            c,
        )
}

/// What is computed now from a log is the model in full.
pub proof fn lemma_computed_now_is_model<S: Scalar>(
    track: Track<S>,
    sessions: Seq<LoggedSession<S>>,
    skips: Seq<Skip>,
    settings: Settings,
    now: Now,
    c: Computed<S>,
)
    requires
        -95_746_129 <= now.day <= 95_745_399,
        model::is_computed_now(track, sessions, skips, settings, now, c),
    ensures
        is_model_now(track, sessions, skips, settings.warmup_days, now.day as int, c),
{
    let (ds, dk) = choose|ds: Seq<DatedSession<S>>, dk: Seq<DatedSkip>|
        model::are_dated_sessions(sessions, ds) && model::are_dated_skips(skips, dk)
            && #[trigger] model::is_computed(track, ds, dk, settings, now.day as int, c);
    lemma_computed_is_model(track, ds, dk, settings, now.day as int, c);
    assert(are_dated(sessions, skips, ds, dk));
}

/// The model of a track is computed in full from its log.
pub proof fn lemma_compute<S: Scalar>(
    track: &Track<S>,
    sessions: &Vec<LoggedSession<S>>,
    skips: &Vec<Skip>,
    settings: &Settings,
    now: Now,
    c: Computed<S>,
)
    requires
        -95_746_129 <= now.day <= 95_745_399,
        call_ensures(model::compute::<S>, (track, sessions, skips, settings, now), c),
    ensures
        is_model_now(*track, sessions@, skips@, settings.warmup_days, now.day as int, c),
{
    lemma_computed_now_is_model(*track, sessions@, skips@, *settings, now, c);
}

}
