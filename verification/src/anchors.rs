//! Anchor points of the interpolation: one per solar event, pairing the
//! instant of the event with the distance to its target on the solar clock.

use vstd::prelude::*;
use vstd::seq_lib::{to_multiset_build, to_multiset_insert};
use crate::events::SolarData;
use crate::instant::{
    Instant,
    TimeOfDay,
    UtcOffset,
    day_floor,
    representable,
    seconds_into_day,
};

verus! {

/// An anchor point. `x` is the instant of a solar event in nanoseconds since
/// the epoch; `y` is the signed distance in nanoseconds from the event to its
/// target instant.
#[derive(Clone, Copy, Debug, PartialEq, Eq, Structural)]
pub struct Point {
    pub x: i128,
    pub y: i128,
}

/// The wall-clock times, in the reference offset, that the solar clock shows
/// at sunrise, at transit and at sunset.
#[derive(Clone, Copy, Debug)]
pub struct SolarTargets {
    pub sunrise: TimeOfDay,
    pub transit: TimeOfDay,
    pub sunset: TimeOfDay,
}

impl SolarTargets {
    /// Each target is a time of day, and sunrise comes before transit,
    /// transit before sunset.
    pub open spec fn wf(self) -> bool {
        &&& self.sunrise.wf()
        &&& self.transit.wf()
        &&& self.sunset.wf()
        &&& self.sunrise@ < self.transit@ < self.sunset@
    }

    /// The schedule with these three times, if each is a time of day and
    /// sunrise comes before transit and transit before sunset.
    pub fn new(sunrise: TimeOfDay, transit: TimeOfDay, sunset: TimeOfDay) -> (r: Option<
        SolarTargets,
    >)
        ensures
            r.is_some() <==> (SolarTargets { sunrise, transit, sunset }).wf(),
            r matches Some(t) ==> t.sunrise == sunrise && t.transit == transit && t.sunset
                == sunset,
    {
        if sunrise.seconds >= 86_400 || sunrise.nanos >= 1_000_000_000 || transit.seconds >= 86_400
            || transit.nanos >= 1_000_000_000 || sunset.seconds >= 86_400 || sunset.nanos
            >= 1_000_000_000 {
            return None;
        }
        if sunrise.is_before(transit) && transit.is_before(sunset) {
            Some(SolarTargets { sunrise, transit, sunset })
        } else {
            None
        }
    }
}

/// The target of an event, in nanoseconds since the epoch: the time of day
/// `time` on the calendar date that the event has in the offset `tz`.
pub open spec fn target_nanos(event: Instant, time: TimeOfDay, tz: UtcOffset) -> int {
    (day_floor(event.secs + tz.seconds) - tz.seconds) * 1_000_000_000 + time@
}

/// The anchor of an event at `event` nanoseconds whose target lies at `target`.
pub open spec fn anchor_of(event: int, target: int) -> Point {
    Point { x: event as i128, y: (target - event) as i128 }
}

/// The target instant of the event at `base_date`: the same calendar date in
/// the offset `tz`, at the time of day `target_time`. `None` exactly when that
/// instant is not representable.
pub fn get_target_time(base_date: Instant, target_time: TimeOfDay, tz: UtcOffset) -> (r: Option<
    Instant,
>)
    requires
        base_date.wf(),
        target_time.wf(),
        tz.wf(),
    ensures
        r.is_some() <==> representable(target_nanos(base_date, target_time, tz)),
        r matches Some(t) ==> t.wf() && t@ == target_nanos(base_date, target_time, tz),
{
    let offset: i64 = tz.seconds as i64;
    let local: i64 = base_date.secs + offset;
    let past: i64 = seconds_into_day(local);
    let day_start: i64 = local - past;
    let utc_secs: i128 = (day_start - offset) as i128;
    let of_day: i128 = (target_time.seconds as i128) * 1_000_000_000 + target_time.nanos as i128;
    Instant::from_nanos(utc_secs * 1_000_000_000 + of_day)
}

/// Appends the anchor of the event at `real_time` with the target `target_time`.
pub fn add_point(points: &mut Vec<Point>, real_time: Instant, target_time: Instant)
    ensures
        final(points)@ == old(points)@.push(anchor_of(real_time@, target_time@)),
        final(points)@.last().x == real_time@,
        final(points)@.last().y == target_time@ - real_time@,
{
    let x: i128 = real_time.to_nanos();
    let target: i128 = target_time.to_nanos();
    points.push(Point { x, y: target - x });
}

/// The anchors of one day in the order in which they are emitted: sunrise if
/// there is one, transit, sunset if there is one.
pub open spec fn day_points(day: SolarData, targets: SolarTargets, tz: UtcOffset) -> Seq<Point> {
    let rise = match day.sunrise {
        Some(t) => seq![anchor_of(t@, target_nanos(t, targets.sunrise, tz))],
        None => Seq::<Point>::empty(),
    };
    let noon = seq![anchor_of(day.transit@, target_nanos(day.transit, targets.transit, tz))];
    let set = match day.sunset {
        Some(t) => seq![anchor_of(t@, target_nanos(t, targets.sunset, tz))],
        None => Seq::<Point>::empty(),
    };
    rise + noon + set
}

/// The anchors of all days, day after day, before they are ordered.
pub open spec fn emitted_points(days: Seq<SolarData>, targets: SolarTargets, tz: UtcOffset) -> Seq<
    Point,
>
    decreases days.len(),
{
    if days.len() == 0 {
        Seq::<Point>::empty()
    } else {
        emitted_points(days.drop_last(), targets, tz) + day_points(days.last(), targets, tz)
    }
}

/// Whether the target of every event of `day` is a representable instant.
pub open spec fn day_targets_representable(
    day: SolarData,
    targets: SolarTargets,
    tz: UtcOffset,
) -> bool {
    &&& representable(target_nanos(day.transit, targets.transit, tz))
    &&& day.sunrise matches Some(t) ==> representable(target_nanos(t, targets.sunrise, tz))
    &&& day.sunset matches Some(t) ==> representable(target_nanos(t, targets.sunset, tz))
}

/// Whether the points stand in ascending order of `x`.
pub open spec fn ascending(points: Seq<Point>) -> bool {
    forall|i: int, j: int| 0 <= i < j < points.len() ==> points[i].x <= points[j].x
}

/// Whether the points stand in strictly ascending order of `x`.
pub open spec fn strictly_ascending(points: Seq<Point>) -> bool {
    forall|i: int, j: int| 0 <= i < j < points.len() ==> points[i].x < points[j].x
}

/// Where `p` goes into `points`: behind the last point whose `x` is not
/// greater than that of `p`, or in front where there is no such point.
pub open spec fn insert_index(points: Seq<Point>, p: Point) -> int
    decreases points.len(),
{
    if points.len() == 0 || points.last().x <= p.x {
        points.len() as int
    } else {
        insert_index(points.drop_last(), p)
    }
}

/// The points in ascending order of `x`, each behind the points that came
/// before it and have the same `x`.
pub open spec fn sorted_by_x(points: Seq<Point>) -> Seq<Point>
    decreases points.len(),
{
    if points.len() == 0 {
        points
    } else {
        let front = sorted_by_x(points.drop_last());
        front.insert(insert_index(front, points.last()), points.last())
    }
}

/// `insert_index` is the one place behind which every `x` is greater than that
/// of `p` and in front of which stands an `x` that is not.
pub proof fn lemma_insert_index(points: Seq<Point>, p: Point, pos: int)
    requires
        0 <= pos <= points.len(),
        forall|k: int| pos <= k < points.len() ==> points[k].x > p.x,
        pos == 0 || points[pos - 1].x <= p.x,
    ensures
        insert_index(points, p) == pos,
    decreases points.len(),
{
    if points.len() > 0 && points.last().x > p.x {
        lemma_insert_index(points.drop_last(), p, pos);
    }
}

/// The place that `insert_index` gives lies within the sequence, every `x`
/// behind it is greater than that of `p`, and the `x` in front of it is not.
pub proof fn lemma_insert_index_bounds(points: Seq<Point>, p: Point)
    ensures
        0 <= insert_index(points, p) <= points.len(),
        forall|k: int| insert_index(points, p) <= k < points.len() ==> points[k].x > p.x,
        insert_index(points, p) == 0 || points[insert_index(points, p) - 1].x <= p.x,
    decreases points.len(),
{
    if points.len() > 0 && points.last().x > p.x {
        let front = points.drop_last();
        lemma_insert_index_bounds(front, p);
        assert forall|k: int| insert_index(points, p) <= k < points.len() implies points[k].x
            > p.x by {
            if k < front.len() {
                assert(front[k] == points[k]);
            }
        }
        if insert_index(points, p) > 0 {
            assert(front[insert_index(points, p) - 1] == points[insert_index(points, p) - 1]);
        }
    }
}

/// Putting `p` into ascending points, behind the points whose `x` is not
/// greater and in front of those whose `x` is, leaves them ascending.
pub proof fn lemma_insert_keeps_ascending(points: Seq<Point>, p: Point, pos: int)
    requires
        ascending(points),
        0 <= pos <= points.len(),
        forall|k: int| pos <= k < points.len() ==> points[k].x > p.x,
        pos == 0 || points[pos - 1].x <= p.x,
    ensures
        ascending(points.insert(pos, p)),
{
    let after = points.insert(pos, p);
    points.insert_ensures(pos, p);
    assert forall|a: int, b: int| 0 <= a < b < after.len() implies after[a].x <= after[b].x by {
        if b < pos {
            assert(after[a] == points[a] && after[b] == points[b]);
        } else if b == pos {
            assert(after[a] == points[a]);
            assert(points[a].x <= points[pos - 1].x);
        } else if a < pos {
            assert(after[a] == points[a]);
            assert(after[b] == points[b - 1]);
        } else if a == pos {
            assert(after[b] == points[b - 1]);
        } else {
            assert(after[a] == points[a - 1]);
            assert(after[b] == points[b - 1]);
        }
    }
}

/// Ordering gives ascending points, and the same points as often as before.
pub proof fn lemma_sorted_by_x(points: Seq<Point>)
    ensures
        ascending(sorted_by_x(points)),
        sorted_by_x(points).to_multiset() == points.to_multiset(),
        sorted_by_x(points).len() == points.len(),
    decreases points.len(),
{
    if points.len() > 0 {
        let front = sorted_by_x(points.drop_last());
        let p = points.last();
        lemma_sorted_by_x(points.drop_last());
        lemma_insert_index_bounds(front, p);
        lemma_insert_keeps_ascending(front, p, insert_index(front, p));
        front.insert_ensures(insert_index(front, p), p);
        to_multiset_insert(front, insert_index(front, p), p);
        to_multiset_build(points.drop_last(), p);
        assert(points.drop_last().push(p) =~= points);
    }
}

/// Ordering leaves ascending points as they are.
pub proof fn lemma_sorted_by_x_of_ascending(points: Seq<Point>)
    requires
        ascending(points),
    ensures
        sorted_by_x(points) == points,
    decreases points.len(),
{
    if points.len() > 0 {
        let front = points.drop_last();
        lemma_sorted_by_x_of_ascending(front);
        if front.len() > 0 {
            assert(front.last() == points[points.len() - 2]);
        }
        assert(insert_index(front, points.last()) == front.len());
        assert(front.insert(front.len() as int, points.last()) =~= points);
    }
}

/// Orders the points by `x`, ascending. A point stays behind the points that
/// were before it and have the same `x`.
pub fn sort_points(points: &Vec<Point>) -> (sorted: Vec<Point>)
    ensures
        sorted@ == sorted_by_x(points@),
{
    let mut sorted: Vec<Point> = Vec::new();
    let mut i: usize = 0;
    proof {
        assert(points@.take(0) =~= Seq::<Point>::empty());
    }
    while i < points.len()
        invariant
            i <= points@.len(),
            sorted@.len() == i,
            sorted@ == sorted_by_x(points@.take(i as int)),
        decreases points@.len() - i,
    {
        let p: Point = points[i];
        let mut pos: usize = sorted.len();
        while pos > 0 && sorted[pos - 1].x > p.x
            invariant
                pos <= sorted@.len(),
                forall|k: int| pos <= k < sorted@.len() ==> sorted@[k].x > p.x,
            decreases pos,
        {
            pos -= 1;
        }
        proof {
            lemma_insert_index(sorted@, p, pos as int);
            assert(points@.take(i as int + 1).drop_last() =~= points@.take(i as int));
            assert(points@.take(i as int + 1).last() == p);
        }
        sorted.insert(pos, p);
        i += 1;
    }
    proof {
        assert(points@.take(points@.len() as int) =~= points@);
    }
    sorted
}

/// The anchors of the days in ascending order of `x`.
pub open spec fn interpolation_model(days: Seq<SolarData>, targets: SolarTargets, tz: UtcOffset) -> Seq<
    Point,
> {
    sorted_by_x(emitted_points(days, targets, tz))
}

/// The anchors of the given days, ordered by `x`, ascending: for each day the
/// sunrise if there is one, the transit, and the sunset if there is one, each
/// with the distance to its target. Nothing is dropped and nothing merged.
/// `None` exactly when the target of some event is not representable.
pub fn build_interpolation_model(days: &Vec<SolarData>, targets: SolarTargets, tz: UtcOffset) -> (r:
    Option<Vec<Point>>)
    requires
        forall|k: int| 0 <= k < days@.len() ==> (#[trigger] days@[k]).wf(),
        targets.wf(),
        tz.wf(),
    ensures
        r.is_some() <==> forall|k: int|
            0 <= k < days@.len() ==> day_targets_representable(#[trigger] days@[k], targets, tz),
        r matches Some(points) ==> points@ == interpolation_model(days@, targets, tz),
{
    let mut points: Vec<Point> = Vec::new();
    let mut i: usize = 0;
    while i < days.len()
        invariant
            i <= days@.len(),
            forall|k: int| 0 <= k < days@.len() ==> (#[trigger] days@[k]).wf(),
            targets.wf(),
            tz.wf(),
            forall|k: int| 0 <= k < i ==> day_targets_representable(#[trigger] days@[k], targets, tz),
            points@ == emitted_points(days@.take(i as int), targets, tz),
        decreases days@.len() - i,
    {
        let day: SolarData = days[i];
        let ghost start = points@;
        if let Some(real_sunrise) = day.sunrise {
            match get_target_time(real_sunrise, targets.sunrise, tz) {
                Some(target) => add_point(&mut points, real_sunrise, target),
                None => { return None; },
            }
        }
        match get_target_time(day.transit, targets.transit, tz) {
            Some(target) => add_point(&mut points, day.transit, target),
            None => { return None; },
        }
        if let Some(real_sunset) = day.sunset {
            match get_target_time(real_sunset, targets.sunset, tz) {
                Some(target) => add_point(&mut points, real_sunset, target),
                None => { return None; },
            }
        }
        proof {
            assert(points@ =~= start + day_points(day, targets, tz));
            assert(days@.take(i as int + 1).drop_last() =~= days@.take(i as int));
            assert(days@.take(i as int + 1).last() == day);
        }
        i += 1;
    }
    proof {
        assert(days@.take(days@.len() as int) =~= days@);
    }
    Some(sort_points(&points))
}

/// Whether the events of the day come in their order: sunrise before
/// transit, transit before sunset.
pub open spec fn day_in_order(day: SolarData) -> bool {
    &&& day.wf()
    &&& day.sunrise matches Some(t) ==> t@ < day.transit@
    &&& day.sunset matches Some(t) ==> day.transit@ < t@
}

/// The instant of the first event of the day.
pub open spec fn day_first(day: SolarData) -> int {
    match day.sunrise {
        Some(t) => t@,
        None => day.transit@,
    }
}

/// The instant of the last event of the day.
pub open spec fn day_last(day: SolarData) -> int {
    match day.sunset {
        Some(t) => t@,
        None => day.transit@,
    }
}

/// Whether the events of all days come in their order, each day's events
/// behind those of the day before.
pub open spec fn days_in_order(days: Seq<SolarData>) -> bool {
    &&& forall|k: int| 0 <= k < days.len() ==> day_in_order(#[trigger] days[k])
    &&& forall|k: int|
        0 <= k < days.len() - 1 ==> day_last(#[trigger] days[k]) < day_first(days[k + 1])
}

/// The anchors of a day whose events come in their order stand in strictly
/// ascending order, from the day's first event to its last.
pub proof fn lemma_day_points_in_order(day: SolarData, targets: SolarTargets, tz: UtcOffset)
    requires
        day_in_order(day),
    ensures
        strictly_ascending(day_points(day, targets, tz)),
        forall|i: int|
            0 <= i < day_points(day, targets, tz).len() ==> day_first(day) <= (
            #[trigger] day_points(day, targets, tz)[i]).x <= day_last(day),
        day_points(day, targets, tz).len() > 0,
        day_points(day, targets, tz).first().x == day_first(day),
        day_points(day, targets, tz).last().x == day_last(day),
{
    let noon = anchor_of(day.transit@, target_nanos(day.transit, targets.transit, tz));
    let points = day_points(day, targets, tz);
    match (day.sunrise, day.sunset) {
        (Some(r), Some(s)) => {
            let rise = anchor_of(r@, target_nanos(r, targets.sunrise, tz));
            let set = anchor_of(s@, target_nanos(s, targets.sunset, tz));
            assert(points =~= seq![rise, noon, set]);
        },
        (Some(r), None) => {
            let rise = anchor_of(r@, target_nanos(r, targets.sunrise, tz));
            assert(points =~= seq![rise, noon]);
        },
        (None, Some(s)) => {
            let set = anchor_of(s@, target_nanos(s, targets.sunset, tz));
            assert(points =~= seq![noon, set]);
        },
        (None, None) => {
            assert(points =~= seq![noon]);
        },
    }
}

/// Anchors are distinct by construction: where the events of all days come
/// in their order, the anchors are emitted in strictly ascending order, none
/// later than the last event of the last day, and ordering changes nothing.
pub proof fn lemma_days_in_order(days: Seq<SolarData>, targets: SolarTargets, tz: UtcOffset)
    requires
        days_in_order(days),
    ensures
        strictly_ascending(emitted_points(days, targets, tz)),
        interpolation_model(days, targets, tz) == emitted_points(days, targets, tz),
        days.len() > 0 ==> forall|i: int|
            0 <= i < emitted_points(days, targets, tz).len() ==> (#[trigger] emitted_points(
                days,
                targets,
                tz,
            )[i]).x <= day_last(days.last()),
        days.len() > 0 ==> {
            &&& emitted_points(days, targets, tz).len() > 0
            &&& emitted_points(days, targets, tz).first().x == day_first(days.first())
            &&& emitted_points(days, targets, tz).last().x == day_last(days.last())
        },
    decreases days.len(),
{
    let all = emitted_points(days, targets, tz);
    if days.len() > 0 {
        let front = days.drop_last();
        let last = days.last();
        assert(days_in_order(front)) by {
            assert forall|k: int| 0 <= k < front.len() implies day_in_order(
                #[trigger] front[k],
            ) by {
                assert(front[k] == days[k]);
            }
            assert forall|k: int| 0 <= k < front.len() - 1 implies day_last(#[trigger] front[k])
                < day_first(front[k + 1]) by {
                assert(front[k] == days[k] && front[k + 1] == days[k + 1]);
            }
        }
        lemma_days_in_order(front, targets, tz);
        assert(day_in_order(days[days.len() - 1]));
        lemma_day_points_in_order(last, targets, tz);
        let a = emitted_points(front, targets, tz);
        let b = day_points(last, targets, tz);
        assert(all == a + b);
        if front.len() > 0 {
            assert(front.last() == days[days.len() - 2]);
            assert(day_last(days[days.len() - 2]) < day_first(days[days.len() - 2 + 1]));
        }
        assert forall|i: int, j: int| 0 <= i < j < all.len() implies all[i].x < all[j].x by {
            if j < a.len() {
                assert(all[i] == a[i] && all[j] == a[j]);
            } else if i < a.len() {
                assert(all[i] == a[i] && all[j] == b[j - a.len()]);
            } else {
                assert(all[i] == b[i - a.len()] && all[j] == b[j - a.len()]);
            }
        }
        assert forall|i: int| 0 <= i < all.len() implies (#[trigger] all[i]).x <= day_last(
            last,
        ) by {
            if i < a.len() {
                assert(all[i] == a[i]);
            } else {
                assert(all[i] == b[i - a.len()]);
            }
        }
        assert(all.last() == b[b.len() - 1]);
        if front.len() > 0 {
            assert(all.first() == a[0]);
            assert(front.first() == days.first());
        } else {
            assert(all.first() == b[0]);
        }
    }
    assert(ascending(all));
    lemma_sorted_by_x_of_ascending(all);
}

/// The start, in seconds since the epoch of the wall clock, of the calendar
/// date that the event has in the offset `tz`.
pub open spec fn local_date(event: Instant, tz: UtcOffset) -> int {
    day_floor(event.secs + tz.seconds)
}

/// Whether all events of the day fall on one calendar date in the offset `tz`.
pub open spec fn day_on_one_date(day: SolarData, tz: UtcOffset) -> bool {
    &&& day.sunrise matches Some(t) ==> local_date(t, tz) == local_date(day.transit, tz)
    &&& day.sunset matches Some(t) ==> local_date(t, tz) == local_date(day.transit, tz)
}

/// Whether each day's events fall on one calendar date in the offset `tz`,
/// and on a later one than the events of the day before.
pub open spec fn dates_ascend(days: Seq<SolarData>, tz: UtcOffset) -> bool {
    &&& forall|k: int| 0 <= k < days.len() ==> day_on_one_date(#[trigger] days[k], tz)
    &&& forall|k: int|
        0 <= k < days.len() - 1 ==> local_date((#[trigger] days[k]).transit, tz) < local_date(
            days[k + 1].transit,
            tz,
        )
}

/// What the solar clock shows at the anchor, in nanoseconds since the epoch.
pub open spec fn shown_at(p: Point) -> int {
    p.x + p.y
}

/// On one calendar date the solar clock shows the targets in their order:
/// the anchors of a day whose events fall on one date show strictly
/// ascending instants, all of them on that date.
pub proof fn lemma_day_shows_targets(day: SolarData, targets: SolarTargets, tz: UtcOffset)
    requires
        day.wf(),
        targets.wf(),
        tz.wf(),
        day_on_one_date(day, tz),
    ensures
        forall|i: int, j: int|
            0 <= i < j < day_points(day, targets, tz).len() ==> shown_at(
                day_points(day, targets, tz)[i],
            ) < shown_at(day_points(day, targets, tz)[j]),
        forall|i: int|
            0 <= i < day_points(day, targets, tz).len() ==> {
                let start = (local_date(day.transit, tz) - tz.seconds) * 1_000_000_000;
                start <= shown_at(#[trigger] day_points(day, targets, tz)[i]) < start
                    + 86_400_000_000_000
            },
{
    let noon = anchor_of(day.transit@, target_nanos(day.transit, targets.transit, tz));
    let points = day_points(day, targets, tz);
    assert(shown_at(noon) == target_nanos(day.transit, targets.transit, tz));
    match (day.sunrise, day.sunset) {
        (Some(r), Some(s)) => {
            let rise = anchor_of(r@, target_nanos(r, targets.sunrise, tz));
            let set = anchor_of(s@, target_nanos(s, targets.sunset, tz));
            assert(points =~= seq![rise, noon, set]);
            assert(shown_at(rise) == target_nanos(r, targets.sunrise, tz));
            assert(shown_at(set) == target_nanos(s, targets.sunset, tz));
        },
        (Some(r), None) => {
            let rise = anchor_of(r@, target_nanos(r, targets.sunrise, tz));
            assert(points =~= seq![rise, noon]);
            assert(shown_at(rise) == target_nanos(r, targets.sunrise, tz));
        },
        (None, Some(s)) => {
            let set = anchor_of(s@, target_nanos(s, targets.sunset, tz));
            assert(points =~= seq![noon, set]);
            assert(shown_at(set) == target_nanos(s, targets.sunset, tz));
        },
        (None, None) => {
            assert(points =~= seq![noon]);
        },
    }
}

/// The solar clock does not run backwards from anchor to anchor: where each
/// day's events fall on one calendar date of the offset, and on a later one
/// than those of the day before, the instants shown at the anchors ascend
/// strictly in the order in which the anchors are emitted.
pub proof fn lemma_shown_ascends(days: Seq<SolarData>, targets: SolarTargets, tz: UtcOffset)
    requires
        forall|k: int| 0 <= k < days.len() ==> (#[trigger] days[k]).wf(),
        targets.wf(),
        tz.wf(),
        dates_ascend(days, tz),
    ensures
        forall|i: int, j: int|
            0 <= i < j < emitted_points(days, targets, tz).len() ==> shown_at(
                emitted_points(days, targets, tz)[i],
            ) < shown_at(emitted_points(days, targets, tz)[j]),
        days.len() > 0 ==> forall|i: int|
            0 <= i < emitted_points(days, targets, tz).len() ==> shown_at(
                #[trigger] emitted_points(days, targets, tz)[i],
            ) < (local_date(days.last().transit, tz) - tz.seconds) * 1_000_000_000
                + 86_400_000_000_000,
    decreases days.len(),
{
    let all = emitted_points(days, targets, tz);
    if days.len() > 0 {
        let front = days.drop_last();
        let last = days.last();
        assert(dates_ascend(front, tz)) by {
            assert forall|k: int| 0 <= k < front.len() implies day_on_one_date(
                #[trigger] front[k],
                tz,
            ) by {
                assert(front[k] == days[k]);
            }
            assert forall|k: int| 0 <= k < front.len() - 1 implies local_date(
                (#[trigger] front[k]).transit,
                tz,
            ) < local_date(front[k + 1].transit, tz) by {
                assert(front[k] == days[k] && front[k + 1] == days[k + 1]);
            }
        }
        assert forall|k: int| 0 <= k < front.len() implies (#[trigger] front[k]).wf() by {
            assert(front[k] == days[k]);
        }
        lemma_shown_ascends(front, targets, tz);
        assert(days[days.len() - 1].wf() && day_on_one_date(days[days.len() - 1], tz));
        lemma_day_shows_targets(last, targets, tz);
        let a = emitted_points(front, targets, tz);
        let b = day_points(last, targets, tz);
        assert(all == a + b);
        let start = (local_date(last.transit, tz) - tz.seconds) * 1_000_000_000;
        if front.len() > 0 {
            let before = days[days.len() - 2];
            assert(front.last() == before);
            assert(local_date(before.transit, tz) < local_date(days[days.len() - 2 + 1].transit, tz));
            lemma_dates_a_day_apart(before.transit, last.transit, tz);
            assert((local_date(before.transit, tz) - tz.seconds) * 1_000_000_000
                + 86_400_000_000_000 <= start);
        }
        assert forall|i: int, j: int| 0 <= i < j < all.len() implies shown_at(all[i]) < shown_at(
            all[j],
        ) by {
            if j < a.len() {
                assert(all[i] == a[i] && all[j] == a[j]);
            } else if i < a.len() {
                assert(all[i] == a[i] && all[j] == b[j - a.len()]);
            } else {
                assert(all[i] == b[i - a.len()] && all[j] == b[j - a.len()]);
            }
        }
        assert forall|i: int| 0 <= i < all.len() implies shown_at(#[trigger] all[i]) < start
            + 86_400_000_000_000 by {
            if i < a.len() {
                assert(all[i] == a[i]);
            } else {
                assert(all[i] == b[i - a.len()]);
            }
        }
    }
}

/// Two different calendar dates start at least a day apart.
pub proof fn lemma_dates_a_day_apart(earlier: Instant, later: Instant, tz: UtcOffset)
    requires
        local_date(earlier, tz) < local_date(later, tz),
    ensures
        local_date(earlier, tz) + 86_400 <= local_date(later, tz),
{
    let a = earlier.secs + tz.seconds;
    let b = later.secs + tz.seconds;
    vstd::arithmetic::div_mod::lemma_fundamental_div_mod(a, 86_400);
    vstd::arithmetic::div_mod::lemma_fundamental_div_mod(b, 86_400);
    assert(day_floor(a) == 86_400 * (a / 86_400));
    assert(day_floor(b) == 86_400 * (b / 86_400));
}

} // verus!
