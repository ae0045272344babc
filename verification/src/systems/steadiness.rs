//! Laws of the model for numbers whose operations are functions and keep an order: the
//! same log gives the same model, and a further session never raises the deficit.

use vstd::prelude::*;

use crate::systems::adherence;
use crate::systems::adherence::{DatedSession, DatedSkip};
use crate::systems::calendar;
use crate::systems::model;
use crate::systems::model::{Computed, DatePoint, LoadPoint};
use crate::systems::records::{Settings, Track};
use crate::systems::scalar;
use crate::systems::scalar::{Scalar, Scale};

verus! {

// --- The same log, the same model ---

proof fn lemma_total_is_determined<S: Scalar>(loads: Seq<S>, r: S, s: S)
    requires
        scalar::is_functional::<S>(),
        model::is_total(loads, r),
        model::is_total(loads, s),
    ensures
        r == s,
    decreases loads.len(),
{
    if loads.len() > 0 {
        let front = loads.drop_last();
        let x = loads.last();
        let p = choose|p: S| model::is_total(front, p) && #[trigger] scalar::is_sum(p, x, r);
        let q = choose|q: S| model::is_total(front, q) && #[trigger] scalar::is_sum(q, x, s);
        lemma_total_is_determined(front, p, q);
        assert(scalar::is_sum(p, x, r) && scalar::is_sum(p, x, s));
    }
}

proof fn lemma_left_is_determined<S: Scalar>(days: S, tau: S, r: S, s: S)
    requires
        scalar::is_functional::<S>(),
        model::is_left(days, tau, r),
        model::is_left(days, tau, s),
    ensures
        r == s,
{
    let (m, q) = choose|m: S, q: S|
        scalar::is_negation(days, m) && #[trigger] scalar::is_quotient(m, tau, q)
            && scalar::is_exponential(q, r);
    let (n, p) = choose|n: S, p: S|
        scalar::is_negation(days, n) && #[trigger] scalar::is_quotient(n, tau, p)
            && scalar::is_exponential(p, s);
    assert(scalar::is_negation(days, m) && scalar::is_negation(days, n));
    assert(scalar::is_quotient(m, tau, q) && scalar::is_quotient(m, tau, p));
    assert(scalar::is_exponential(q, r) && scalar::is_exponential(q, s));
}

proof fn lemma_decay_is_determined<S: Scalar>(tau: S, r: S, s: S)
    requires
        scalar::is_functional::<S>(),
        model::is_decay(tau, r),
        model::is_decay(tau, s),
    ensures
        r == s,
{
    let one = choose|one: S| scalar::is_whole(1, one) && #[trigger] model::is_left(one, tau, r);
    let uno = choose|uno: S| scalar::is_whole(1, uno) && #[trigger] model::is_left(uno, tau, s);
    assert(scalar::is_whole(1, one) && scalar::is_whole(1, uno));
    lemma_left_is_determined(one, tau, r, s);
}

proof fn lemma_positivity_is_determined<S: Scalar>(a: S, r: bool, s: bool)
    requires
        scalar::is_functional::<S>(),
        model::is_positivity(a, r),
        model::is_positivity(a, s),
    ensures
        r == s,
{
    let y = choose|y: S| scalar::is_whole(0, y) && #[trigger] scalar::is_excess(a, y, r);
    let z = choose|z: S| scalar::is_whole(0, z) && #[trigger] scalar::is_excess(a, z, s);
    assert(scalar::is_whole(0, y) && scalar::is_whole(0, z));
    assert(scalar::is_excess(a, y, r) && scalar::is_excess(a, y, s));
}

proof fn lemma_loss_is_determined<S: Scalar>(period: S, tau: S, r: S, s: S)
    requires
        scalar::is_functional::<S>(),
        model::is_loss(period, tau, r),
        model::is_loss(period, tau, s),
    ensures
        r == s,
{
    let (one, p) = choose|one: S, p: S|
        scalar::is_whole(1, one) && model::is_left(period, tau, p)
            && #[trigger] scalar::is_difference(one, p, r);
    let (uno, q) = choose|uno: S, q: S|
        scalar::is_whole(1, uno) && model::is_left(period, tau, q)
            && #[trigger] scalar::is_difference(uno, q, s);
    assert(scalar::is_whole(1, one) && scalar::is_whole(1, uno));
    lemma_left_is_determined(period, tau, p, q);
    assert(scalar::is_difference(one, p, r) && scalar::is_difference(one, p, s));
}

/// For numbers whose operations are functions, the floor is determined by the track: no
/// session, skip or setting changes it.
pub proof fn lemma_floor_is_determined<S: Scalar>(track: Track<S>, r: S, s: S)
    requires
        scalar::is_functional::<S>(),
        model::is_floor(track, r),
        model::is_floor(track, s),
    ensures
        r == s,
{
    let (p, b) = choose|p: S, b: bool|
        model::is_loss(track.period_days, track.tau_days, p) && #[trigger] model::is_positivity(
            p,
            b,
        ) && if b {
            scalar::is_quotient(track.mean_load, p, r)
        } else {
            r == track.mean_load
        };
    let (q, c) = choose|q: S, c: bool|
        model::is_loss(track.period_days, track.tau_days, q) && #[trigger] model::is_positivity(
            q,
            c,
        ) && if c {
            scalar::is_quotient(track.mean_load, q, s)
        } else {
            s == track.mean_load
        };
    lemma_loss_is_determined(track.period_days, track.tau_days, p, q);
    lemma_positivity_is_determined(p, b, c);
    if b {
        assert(scalar::is_quotient(track.mean_load, p, r) && scalar::is_quotient(
            track.mean_load,
            p,
            s,
        ));
    }
}

/// The two show the same model: the same numbers, day by day in both series.
pub open spec fn same_model<S>(a: Computed<S>, b: Computed<S>) -> bool {
    &&& a.floor == b.floor
    &&& a.deficit_load == b.deficit_load
    &&& a.deficit_sessions == b.deficit_sessions
    &&& a.alert_threshold == b.alert_threshold
    &&& a.daily_load@.len() == b.daily_load@.len()
    &&& a.fitness@.len() == b.fitness@.len()
    &&& forall|i: int|
        0 <= i < a.daily_load@.len() ==> {
            &&& (#[trigger] a.daily_load@[i]).date@ == b.daily_load@[i].date@
            &&& a.daily_load@[i].load == b.daily_load@[i].load
        }
    &&& forall|i: int|
        0 <= i < a.fitness@.len() ==> {
            &&& (#[trigger] a.fitness@[i]).date@ == b.fitness@[i].date@
            &&& a.fitness@[i].value == b.fitness@[i].value
        }
}

proof fn lemma_fitness_is_determined<S: Scalar>(
    initial: S,
    decay: S,
    start: int,
    p_loads: Seq<LoadPoint<S>>,
    q_loads: Seq<LoadPoint<S>>,
    p: Seq<DatePoint<S>>,
    q: Seq<DatePoint<S>>,
    i: int,
)
    requires
        scalar::is_functional::<S>(),
        model::is_fitness_from(initial, decay, start, p_loads, p),
        model::is_fitness_from(initial, decay, start, q_loads, q),
        p_loads.len() == q_loads.len(),
        forall|k: int| 0 <= k < p_loads.len() ==> (#[trigger] p_loads[k]).load == q_loads[k].load,
        0 <= i < p.len(),
    ensures
        p[i].value == q[i].value,
        p[i].date@ == q[i].date@,
    decreases i,
{
    if i > 0 {
        lemma_fitness_is_determined(initial, decay, start, p_loads, q_loads, p, q, i - 1);
    }
    let before = if i == 0 {
        initial
    } else {
        p[i - 1].value
    };
    let load = p_loads[i].load;
    assert(p[i].date@ == calendar::day_text(start + i));
    assert(q[i].date@ == calendar::day_text(start + i));
    assert(model::is_next_fitness(before, decay, load, p[i].value));
    assert(model::is_next_fitness(before, decay, load, q[i].value));
    let a = choose|a: S|
        scalar::is_product(before, decay, a) && #[trigger] scalar::is_sum(a, load, p[i].value);
    let b = choose|b: S|
        scalar::is_product(before, decay, b) && #[trigger] scalar::is_sum(b, load, q[i].value);
    assert(scalar::is_product(before, decay, a) && scalar::is_product(before, decay, b));
    assert(scalar::is_sum(a, load, p[i].value) && scalar::is_sum(a, load, q[i].value));
}

proof fn lemma_deficit_is_determined<S: Scalar>(floor: S, fitness: S, r: S, s: S)
    requires
        scalar::is_functional::<S>(),
        model::is_deficit(floor, fitness, r),
        model::is_deficit(floor, fitness, s),
    ensures
        r == s,
{
    let (g, y) = choose|g: S, y: S|
        scalar::is_difference(floor, fitness, g) && scalar::is_whole(0, y)
            && #[trigger] scalar::is_larger(g, y, r);
    let (h, z) = choose|h: S, z: S|
        scalar::is_difference(floor, fitness, h) && scalar::is_whole(0, z)
            && #[trigger] scalar::is_larger(h, z, s);
    assert(scalar::is_difference(floor, fitness, g) && scalar::is_difference(floor, fitness, h));
    assert(scalar::is_whole(0, y) && scalar::is_whole(0, z));
    assert(scalar::is_larger(g, y, r) && scalar::is_larger(g, y, s));
}

proof fn lemma_session_deficit_is_determined<S: Scalar>(deficit: S, mean_load: S, r: S, s: S)
    requires
        scalar::is_functional::<S>(),
        model::is_session_deficit(deficit, mean_load, r),
        model::is_session_deficit(deficit, mean_load, s),
    ensures
        r == s,
{
    let b = choose|b: bool| #[trigger]
        model::is_positivity(mean_load, b) && if b {
            scalar::is_quotient(deficit, mean_load, r)
        } else {
            scalar::is_whole(0, r)
        };
    let c = choose|c: bool| #[trigger]
        model::is_positivity(mean_load, c) && if c {
            scalar::is_quotient(deficit, mean_load, s)
        } else {
            scalar::is_whole(0, s)
        };
    lemma_positivity_is_determined(mean_load, b, c);
    if b {
        assert(scalar::is_quotient(deficit, mean_load, r) && scalar::is_quotient(
            deficit,
            mean_load,
            s,
        ));
    } else {
        assert(scalar::is_whole(0, r) && scalar::is_whole(0, s));
    }
}

/// For numbers whose operations are functions, the loads of the days of the window
/// determine the model: whoever computes it, and whenever, gets the same.
pub proof fn lemma_model_is_determined<S: Scalar>(
    track: Track<S>,
    p_sessions: Seq<DatedSession<S>>,
    q_sessions: Seq<DatedSession<S>>,
    p_skips: Seq<DatedSkip>,
    q_skips: Seq<DatedSkip>,
    settings: Settings,
    today: int,
    p: Computed<S>,
    q: Computed<S>,
)
    requires
        scalar::is_functional::<S>(),
        forall|day: int|
            model::window_start(settings, today) <= day <= today ==> #[trigger] model::loads_on(
                p_sessions,
                day,
            ) == model::loads_on(q_sessions, day),
        model::is_computed(track, p_sessions, p_skips, settings, today, p),
        model::is_computed(track, q_sessions, q_skips, settings, today, q),
    ensures
        same_model(p, q),
{
    let start = model::window_start(settings, today);
    let pl = p.daily_load@;
    let ql = q.daily_load@;
    assert forall|i: int| 0 <= i < pl.len() implies (#[trigger] pl[i]).date@ == ql[i].date@
        && pl[i].load == ql[i].load by {
        assert(model::loads_on(p_sessions, start + i) == model::loads_on(q_sessions, start + i));
        assert(model::is_total(model::loads_on(q_sessions, start + i), ql[i].load));
        lemma_total_is_determined(
            model::loads_on(p_sessions, start + i),
            pl[i].load,
            ql[i].load,
        );
    }
    let (y, d) = choose|y: S, d: S|
        scalar::is_whole(0, y) && model::is_decay(track.tau_days, d)
            && #[trigger] model::is_fitness_from(y, d, start, pl, p.fitness@);
    let (z, e) = choose|z: S, e: S|
        scalar::is_whole(0, z) && model::is_decay(track.tau_days, e)
            && #[trigger] model::is_fitness_from(z, e, start, ql, q.fitness@);
    assert(scalar::is_whole(0, y) && scalar::is_whole(0, z));
    lemma_decay_is_determined(track.tau_days, d, e);
    assert forall|i: int| 0 <= i < p.fitness@.len() implies (#[trigger] p.fitness@[i]).date@
        == q.fitness@[i].date@ && p.fitness@[i].value == q.fitness@[i].value by {
        lemma_fitness_is_determined(y, d, start, pl, ql, p.fitness@, q.fitness@, i);
    }
    lemma_floor_is_determined(track, p.floor, q.floor);
    let last = p.fitness@.len() - 1;
    assert(last >= 0);
    assert(p.fitness@[last].value == q.fitness@[last].value);
    lemma_deficit_is_determined(
        p.floor,
        p.fitness@.last().value,
        p.deficit_load,
        q.deficit_load,
    );
    lemma_session_deficit_is_determined(
        p.deficit_load,
        track.mean_load,
        p.deficit_sessions,
        q.deficit_sessions,
    );
    assert(scalar::is_product(track.alert_mult, track.mean_load, p.alert_threshold)
        && scalar::is_product(track.alert_mult, track.mean_load, q.alert_threshold));
}

/// A session outside the window, wherever it stands in the log, changes nothing of the
/// model.
pub proof fn lemma_outside_window_same_model<S: Scalar>(
    track: Track<S>,
    earlier: Seq<DatedSession<S>>,
    session: DatedSession<S>,
    later: Seq<DatedSession<S>>,
    skips: Seq<DatedSkip>,
    settings: Settings,
    today: int,
    without: Computed<S>,
    with: Computed<S>,
)
    requires
        scalar::is_functional::<S>(),
        calendar::in_calendar(today),
        !adherence::within(session.day, model::window_start(settings, today), today),
        model::is_computed(track, earlier + later, skips, settings, today, without),
        model::is_computed(track, earlier + seq![session] + later, skips, settings, today, with),
    ensures
        same_model(without, with),
{
    let p = earlier + later;
    let q = earlier + seq![session] + later;
    assert forall|day: int|
        model::window_start(settings, today) <= day <= today implies #[trigger] model::loads_on(
        p,
        day,
    ) == model::loads_on(q, day) by {
        lemma_loads_on_with(earlier, session, later, day);
    }
    lemma_model_is_determined(track, p, q, skips, skips, settings, today, without, with);
}

// --- A further session ---

proof fn lemma_loads_on_add<S>(a: Seq<DatedSession<S>>, b: Seq<DatedSession<S>>, day: int)
    ensures
        model::loads_on(a + b, day) == model::loads_on(a, day) + model::loads_on(b, day),
{
    let on_day = |s: DatedSession<S>| s.day == Some(day as i32);
    let load = |s: DatedSession<S>| s.load;
    Seq::filter_distributes_over_add(a, b, on_day);
    assert((a.filter(on_day) + b.filter(on_day)).map_values(load) =~= a.filter(on_day).map_values(
        load,
    ) + b.filter(on_day).map_values(load));
}

/// The loads of a day with a further session in the log.
proof fn lemma_loads_on_with<S>(
    earlier: Seq<DatedSession<S>>,
    session: DatedSession<S>,
    later: Seq<DatedSession<S>>,
    day: int,
)
    ensures
        model::loads_on(earlier + later, day) == model::loads_on(earlier, day) + model::loads_on(
            later,
            day,
        ),
        model::loads_on(earlier + seq![session] + later, day) == if session.day == Some(
            day as i32,
        ) {
            model::loads_on(earlier, day) + seq![session.load] + model::loads_on(later, day)
        } else {
            model::loads_on(earlier + later, day)
        },
{
    lemma_loads_on_add(earlier, later, day);
    lemma_loads_on_add(earlier, seq![session] + later, day);
    model::lemma_session_counts_on_its_day(session, later, day);
    assert(earlier + seq![session] + later =~= earlier + (seq![session] + later));
    assert(model::loads_on(earlier, day) + (seq![session.load] + model::loads_on(later, day))
        =~= model::loads_on(earlier, day) + seq![session.load] + model::loads_on(later, day));
}

/// All are loads.
pub open spec fn are_loads<S>(scale: Scale<S>, loads: Seq<S>) -> bool {
    forall|i: int| 0 <= i < loads.len() ==> (scale.load)(#[trigger] loads[i])
}

/// The loads of all sessions are loads.
pub open spec fn have_loads<S>(scale: Scale<S>, sessions: Seq<DatedSession<S>>) -> bool {
    forall|i: int| 0 <= i < sessions.len() ==> (scale.load)((#[trigger] sessions[i]).load)
}

proof fn lemma_loads_on_are_loads<S>(
    scale: Scale<S>,
    sessions: Seq<DatedSession<S>>,
    day: int,
)
    requires
        have_loads(scale, sessions),
    ensures
        are_loads(scale, model::loads_on(sessions, day)),
    decreases sessions.len(),
{
    if sessions.len() == 0 {
        reveal(Seq::filter);
    } else {
        let front = sessions.drop_last();
        assert(sessions =~= front.push(sessions.last()));
        assert forall|i: int| 0 <= i < front.len() implies (scale.load)(
            (#[trigger] front[i]).load,
        ) by {
            assert(front[i] == sessions[i]);
        }
        lemma_loads_on_are_loads(scale, front, day);
        model::lemma_loads_on_push(front, sessions.last(), day);
        assert((scale.load)(sessions[sessions.len() - 1].load));
    }
}

proof fn lemma_total_is_load<S: Scalar>(scale: Scale<S>, loads: Seq<S>, r: S)
    requires
        scalar::keeps_order(scale),
        are_loads(scale, loads),
        model::is_total(loads, r),
    ensures
        (scale.load)(r),
    decreases loads.len(),
{
    if loads.len() > 0 {
        let front = loads.drop_last();
        let x = loads.last();
        let p = choose|p: S| model::is_total(front, p) && #[trigger] scalar::is_sum(p, x, r);
        assert(are_loads(scale, front)) by {
            assert forall|i: int| 0 <= i < front.len() implies (scale.load)(
                #[trigger] front[i],
            ) by {
                assert(front[i] == loads[i]);
            }
        }
        lemma_total_is_load(scale, front, p);
        assert((scale.load)(loads[loads.len() - 1]));
        assert(scalar::is_sum(p, x, r));
    }
}

/// One more load makes no total smaller.
proof fn lemma_total_grows<S: Scalar>(
    scale: Scale<S>,
    a: Seq<S>,
    x: S,
    b: Seq<S>,
    r: S,
    s: S,
)
    requires
        scalar::is_functional::<S>(),
        scalar::keeps_order(scale),
        are_loads(scale, a),
        (scale.load)(x),
        are_loads(scale, b),
        model::is_total(a + b, r),
        model::is_total(a + seq![x] + b, s),
    ensures
        (scale.load)(r),
        (scale.load)(s),
        (scale.at_most)(r, s),
    decreases b.len(),
{
    let few = a + b;
    let many = a + seq![x] + b;
    assert(are_loads(scale, few));
    assert(are_loads(scale, many));
    lemma_total_is_load(scale, few, r);
    lemma_total_is_load(scale, many, s);
    let q = choose|q: S|
        model::is_total(many.drop_last(), q) && #[trigger] scalar::is_sum(q, many.last(), s);
    if b.len() == 0 {
        assert(few =~= a);
        assert(many.drop_last() =~= a);
        assert(many.last() == x);
        lemma_total_is_determined(a, r, q);
        assert(scalar::is_sum(r, x, s));
    } else {
        let front = b.drop_last();
        let y = b.last();
        let p = choose|p: S|
            model::is_total(few.drop_last(), p) && #[trigger] scalar::is_sum(p, few.last(), r);
        assert(few.drop_last() =~= a + front);
        assert(many.drop_last() =~= a + seq![x] + front);
        assert(few.last() == y && many.last() == y);
        assert forall|i: int| 0 <= i < front.len() implies (scale.load)(#[trigger] front[i]) by {
            assert(front[i] == b[i]);
        }
        lemma_total_grows(scale, a, x, front, p, q);
        assert((scale.load)(b[b.len() - 1]));
        assert((scale.at_most)(y, y));
        assert(scalar::is_sum(p, y, r) && scalar::is_sum(q, y, s));
    }
}

proof fn lemma_fitness_grows<S: Scalar>(
    scale: Scale<S>,
    initial: S,
    decay: S,
    start: int,
    p_loads: Seq<LoadPoint<S>>,
    q_loads: Seq<LoadPoint<S>>,
    p: Seq<DatePoint<S>>,
    q: Seq<DatePoint<S>>,
    i: int,
)
    requires
        scalar::keeps_order(scale),
        (scale.load)(initial),
        (scale.rate)(decay),
        model::is_fitness_from(initial, decay, start, p_loads, p),
        model::is_fitness_from(initial, decay, start, q_loads, q),
        p_loads.len() == q_loads.len(),
        forall|k: int|
            0 <= k < p_loads.len() ==> {
                &&& (scale.load)((#[trigger] p_loads[k]).load)
                &&& (scale.load)(q_loads[k].load)
                &&& (scale.at_most)(p_loads[k].load, q_loads[k].load)
            },
        0 <= i < p.len(),
    ensures
        (scale.load)(p[i].value),
        (scale.load)(q[i].value),
        (scale.at_most)(p[i].value, q[i].value),
    decreases i,
{
    if i > 0 {
        lemma_fitness_grows(scale, initial, decay, start, p_loads, q_loads, p, q, i - 1);
    }
    let f = if i == 0 {
        initial
    } else {
        p[i - 1].value
    };
    let g = if i == 0 {
        initial
    } else {
        q[i - 1].value
    };
    let x = p_loads[i].load;
    let y = q_loads[i].load;
    assert((scale.at_most)(f, g));
    assert(p[i].date@ == calendar::day_text(start + i));
    assert(q[i].date@ == calendar::day_text(start + i));
    let a = choose|a: S|
        scalar::is_product(f, decay, a) && #[trigger] scalar::is_sum(a, x, p[i].value);
    let b = choose|b: S|
        scalar::is_product(g, decay, b) && #[trigger] scalar::is_sum(b, y, q[i].value);
    assert(scalar::is_product(f, decay, a) && scalar::is_product(g, decay, b));
    assert(scalar::is_sum(a, x, p[i].value) && scalar::is_sum(b, y, q[i].value));
}

/// For numbers whose operations are functions and keep an order, a further session,
/// wherever it stands in the log, never raises the deficit: it lowers no day's load and
/// no day's fitness, and leaves the floor and the threshold as they are.
pub proof fn lemma_session_never_raises_deficit<S: Scalar>(
    scale: Scale<S>,
    track: Track<S>,
    earlier: Seq<DatedSession<S>>,
    session: DatedSession<S>,
    later: Seq<DatedSession<S>>,
    skips: Seq<DatedSkip>,
    settings: Settings,
    today: int,
    without: Computed<S>,
    with: Computed<S>,
)
    requires
        scalar::is_functional::<S>(),
        scalar::keeps_order(scale),
        have_loads(scale, earlier),
        (scale.load)(session.load),
        have_loads(scale, later),
        forall|decay: S| #[trigger]
            model::is_decay(track.tau_days, decay) ==> (scale.rate)(decay),
        (scale.level)(without.floor),
        model::is_computed(track, earlier + later, skips, settings, today, without),
        model::is_computed(track, earlier + seq![session] + later, skips, settings, today, with),
    ensures
        (scale.at_most)(with.deficit_load, without.deficit_load),
        with.floor == without.floor,
        with.alert_threshold == without.alert_threshold,
        with.fitness@.len() == without.fitness@.len(),
        with.daily_load@.len() == without.daily_load@.len(),
        forall|i: int|
            0 <= i < without.daily_load@.len() ==> (scale.at_most)(
                (#[trigger] without.daily_load@[i]).load,
                with.daily_load@[i].load,
            ),
        forall|i: int|
            0 <= i < without.fitness@.len() ==> (scale.at_most)(
                (#[trigger] without.fitness@[i]).value,
                with.fitness@[i].value,
            ),
{
    let start = model::window_start(settings, today);
    let pl = without.daily_load@;
    let ql = with.daily_load@;
    assert forall|i: int| 0 <= i < pl.len() implies {
        &&& (scale.load)((#[trigger] pl[i]).load)
        &&& (scale.load)(ql[i].load)
        &&& (scale.at_most)(pl[i].load, ql[i].load)
    } by {
        let day = start + i;
        let a = model::loads_on(earlier, day);
        let b = model::loads_on(later, day);
        assert(model::is_total(model::loads_on(earlier + later, day), pl[i].load));
        assert(ql[i].date@ == calendar::day_text(day));
        lemma_loads_on_with(earlier, session, later, day);
        lemma_loads_on_are_loads(scale, earlier, day);
        lemma_loads_on_are_loads(scale, later, day);
        if session.day == Some(day as i32) {
            lemma_total_grows(scale, a, session.load, b, pl[i].load, ql[i].load);
        } else {
            lemma_total_is_determined(a + b, pl[i].load, ql[i].load);
            lemma_total_is_load(scale, a + b, pl[i].load);
        }
    }
    let p = without.fitness@;
    let q = with.fitness@;
    let (y, d) = choose|y: S, d: S|
        scalar::is_whole(0, y) && model::is_decay(track.tau_days, d)
            && #[trigger] model::is_fitness_from(y, d, start, pl, p);
    let (z, e) = choose|z: S, e: S|
        scalar::is_whole(0, z) && model::is_decay(track.tau_days, e)
            && #[trigger] model::is_fitness_from(z, e, start, ql, q);
    assert(scalar::is_whole(0, y) && scalar::is_whole(0, z));
    lemma_decay_is_determined(track.tau_days, d, e);
    assert forall|i: int| 0 <= i < p.len() implies (scale.load)(p[i].value) && (scale.load)(
        q[i].value,
    ) && (scale.at_most)((#[trigger] p[i]).value, q[i].value) by {
        lemma_fitness_grows(scale, y, d, start, pl, ql, p, q, i);
    }
    lemma_floor_is_determined(track, without.floor, with.floor);
    assert(scalar::is_product(track.alert_mult, track.mean_load, without.alert_threshold)
        && scalar::is_product(track.alert_mult, track.mean_load, with.alert_threshold));
    let last = p.len() - 1;
    assert(last >= 0);
    let f = p[last].value;
    let g = q[last].value;
    assert((scale.at_most)(f, g));
    let floor = without.floor;
    let (m, u) = choose|m: S, u: S|
        scalar::is_difference(floor, f, m) && scalar::is_whole(0, u) && #[trigger] scalar::is_larger(
            m,
            u,
            without.deficit_load,
        );
    let (n, v) = choose|n: S, v: S|
        scalar::is_difference(floor, g, n) && scalar::is_whole(0, v) && #[trigger] scalar::is_larger(
            n,
            v,
            with.deficit_load,
        );
    assert(scalar::is_whole(0, u) && scalar::is_whole(0, v));
    assert(scalar::is_difference(floor, f, m) && scalar::is_difference(floor, g, n));
    assert((scale.at_most)(n, m));
    assert(scalar::is_larger(m, u, without.deficit_load) && scalar::is_larger(
        n,
        u,
        with.deficit_load,
    ));
}

}
