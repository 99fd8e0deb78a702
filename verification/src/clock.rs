//! The solar clock itself: what guards the interpolation, what is known
//! without it, and the shift of the input instant by the interpolated distance.

use vstd::prelude::*;
use crate::anchors::{
    Point,
    SolarTargets,
    build_interpolation_model,
    day_first,
    day_in_order,
    day_last,
    day_points,
    days_in_order,
    lemma_days_in_order,
    day_targets_representable,
    emitted_points,
    interpolation_model,
    lemma_sorted_by_x,
    strictly_ascending,
};
use crate::calendar::{NANOS_PER_DAY, SolarDay, solar_window};
use crate::events::{
    DayOffsets,
    SolarData,
    calculate_solar_data,
    events_representable,
    first_offset,
    last_offset,
    regular_offsets,
    solar_data_at,
};
use crate::instant::{
    Instant,
    UtcOffset,
    day_floor,
    lemma_instant_at,
    representable,
    seconds_into_day,
};

verus! {

/// Why no solar-clock instant can be given.
#[derive(Clone, Copy, Debug, PartialEq, Eq, Structural)]
pub enum SolarClockError {
    /// Fewer than two anchor points.
    InsufficientData,
    /// The anchors do not stand in strictly ascending order, or the instant
    /// lies before the first or after the last of them.
    InterpolationDomainError,
    /// A day of the window, an event or a target is not a representable instant.
    OutOfRange,
}

/// How the distance at an instant inside the domain is obtained.
#[derive(Clone, Copy, Debug, PartialEq, Eq, Structural)]
pub enum Evaluation {
    /// The instant is that of an anchor: the distance, in nanoseconds, is the anchor's.
    Exact(i128),
    /// The instant lies strictly between two anchors: the curve has to be evaluated.
    Interpolate,
}

/// A solar-clock instant: the absolute instant and the offset it is shown in.
#[derive(Clone, Copy, Debug, PartialEq, Eq, Structural)]
pub struct SolarClockTime {
    pub utc: Instant,
    pub offset: UtcOffset,
}

/// Whether an interpolant over `points` may be asked for its value at `t`.
pub open spec fn domain_verdict(points: Seq<Point>, t: int) -> Result<(), SolarClockError> {
    if points.len() < 2 {
        Err(SolarClockError::InsufficientData)
    } else if !strictly_ascending(points) || t < points.first().x || t > points.last().x {
        Err(SolarClockError::InterpolationDomainError)
    } else {
        Ok(())
    }
}

/// Whether some anchor lies at `t` with the distance `d`.
pub open spec fn anchor_hit(points: Seq<Point>, t: int, d: int) -> bool {
    exists|k: int| 0 <= k < points.len() && (#[trigger] points[k]).x == t && points[k].y == d
}

/// Whether any anchor lies at `t`.
pub open spec fn on_anchor(points: Seq<Point>, t: int) -> bool {
    exists|k: int| 0 <= k < points.len() && (#[trigger] points[k]).x == t
}

/// Whether `plan` is how the distance at `t` is obtained from `points`, or
/// the reason why it cannot be.
pub open spec fn planned(points: Seq<Point>, t: int, plan: Result<Evaluation, SolarClockError>) -> bool {
    match domain_verdict(points, t) {
        Err(e) => plan == Err::<Evaluation, SolarClockError>(e),
        Ok(_) => match plan {
            Ok(Evaluation::Exact(d)) => anchor_hit(points, t, d as int),
            Ok(Evaluation::Interpolate) => !on_anchor(points, t),
            Err(_) => false,
        },
    }
}

/// Decides whether the interpolant over `points` has a value at `input`:
/// not with fewer than two points, not unless the points stand in strictly
/// ascending order, and not outside the span from the first to the last.
pub fn check_interpolation_domain(points: &Vec<Point>, input: Instant) -> (r: Result<
    (),
    SolarClockError,
>)
    ensures
        r == domain_verdict(points@, input@),
{
    let n: usize = points.len();
    if n < 2 {
        return Err(SolarClockError::InsufficientData);
    }
    let mut i: usize = 1;
    while i < n
        invariant
            1 <= i <= n,
            n == points@.len(),
            forall|a: int, b: int| 0 <= a < b < i ==> points@[a].x < points@[b].x,
        decreases n - i,
    {
        if points[i - 1].x >= points[i].x {
            return Err(SolarClockError::InterpolationDomainError);
        }
        i += 1;
    }
    let t: i128 = input.to_nanos();
    if t < points[0].x || t > points[n - 1].x {
        Err(SolarClockError::InterpolationDomainError)
    } else {
        Ok(())
    }
}

/// Plans the evaluation at `input`: an error where the interpolant has no
/// value there, the anchor's own distance where `input` is the instant of an
/// anchor, and otherwise the request to evaluate the curve.
pub fn plan_evaluation(points: &Vec<Point>, input: Instant) -> (r: Result<
    Evaluation,
    SolarClockError,
>)
    ensures
        planned(points@, input@, r),
{
    match check_interpolation_domain(points, input) {
        Err(e) => { return Err(e); },
        Ok(_) => {},
    }
    let t: i128 = input.to_nanos();
    let mut i: usize = 0;
    while i < points.len()
        invariant
            i <= points@.len(),
            t == input@,
            domain_verdict(points@, input@).is_ok(),
            forall|k: int| 0 <= k < i ==> (#[trigger] points@[k]).x != t,
        decreases points@.len() - i,
    {
        if points[i].x == t {
            proof {
                let hit = points@[i as int];
                assert(hit.x == input@ && hit.y == points@[i as int].y);
            }
            return Ok(Evaluation::Exact(points[i].y));
        }
        i += 1;
    }
    Ok(Evaluation::Interpolate)
}

/// The instant that the solar clock shows: `input` moved by the distance
/// `seconds` whole seconds plus `sub_nanos` nanoseconds, in the offset `tz`.
/// Where the range of instants does not hold the result, `input` itself.
pub fn solar_clock_time(input: Instant, seconds: i64, sub_nanos: i64, tz: UtcOffset) -> (r:
    SolarClockTime)
    requires
        input.wf(),
    ensures
        r.offset == tz,
        r.utc.wf(),
        r.utc@ == shifted(input@, seconds * 1_000_000_000 + sub_nanos),
{
    let wide: i128 = seconds as i128;
    shift_instant(input, wide * 1_000_000_000 + sub_nanos as i128, tz)
}

/// `input` moved by `delta` nanoseconds, in the offset `tz`. Where the range
/// of instants does not hold the result, `input` itself.
pub fn shift_instant(input: Instant, delta: i128, tz: UtcOffset) -> (r: SolarClockTime)
    requires
        input.wf(),
    ensures
        r.offset == tz,
        r.utc.wf(),
        r.utc@ == shifted(input@, delta as int),
{
    match input.checked_add_nanos(delta) {
        Some(t) => SolarClockTime { utc: t, offset: tz },
        None => SolarClockTime { utc: input, offset: tz },
    }
}

/// `t` moved by `delta` nanoseconds, or `t` itself where the result is not representable.
pub open spec fn shifted(t: int, delta: int) -> int {
    if representable(t + delta) {
        t + delta
    } else {
        t
    }
}

impl SolarClockTime {
    /// Seconds since the epoch of the wall clock in the offset.
    pub open spec fn local_seconds(self) -> int {
        self.utc.secs + self.offset.seconds
    }

    /// The time of day that the clock shows in its offset, in seconds from midnight.
    pub fn seconds_of_day(self) -> (s: u32)
        requires
            self.utc.wf(),
            self.offset.wf(),
        ensures
            s == self.local_seconds() % 86_400,
            s < 86_400,
    {
        let local: i64 = self.utc.secs + self.offset.seconds as i64;
        let past: i64 = seconds_into_day(local);
        past as u32
    }
}

/// What a calculation on the window around an instant comes to.
#[derive(Debug)]
pub enum ClockStep {
    /// The instant is that of a solar event: the clock shows the event's
    /// target, `delta` nanoseconds from the instant.
    Shown { time: SolarClockTime, delta: i128 },
    /// The instant lies between the events at `points`: the curve through
    /// them has to be evaluated at it.
    Interpolate { points: Vec<Point> },
}

/// Midnight, in nanoseconds since the epoch, of day `k` of the window around
/// `input`: the day before for 0, the day itself for 1, the day after for 2.
pub open spec fn window_midnight(input: Instant, k: int) -> int {
    day_floor((input@ + (k - 1) * NANOS_PER_DAY) / 1_000_000_000) * 1_000_000_000
}

/// The solar events of the three days of the window around `input`.
pub open spec fn window_data(input: Instant, offsets: Seq<DayOffsets>) -> Seq<SolarData> {
    Seq::new(3, |k: int| solar_data_at(window_midnight(input, k), offsets[k]))
}

/// Whether the days of the window, their events and the targets of these are
/// all representable instants.
pub open spec fn window_representable(
    input: Instant,
    offsets: Seq<DayOffsets>,
    targets: SolarTargets,
    tz: UtcOffset,
) -> bool {
    &&& representable(input@ - NANOS_PER_DAY)
    &&& representable(input@ + NANOS_PER_DAY)
    &&& forall|k: int|
        0 <= k < 3 ==> events_representable(window_midnight(input, k), #[trigger] offsets[k])
    &&& forall|k: int|
        0 <= k < 3 ==> day_targets_representable(
            #[trigger] window_data(input, offsets)[k],
            targets,
            tz,
        )
}

/// Whether `step` is what the calculation at `input` comes to.
pub open spec fn clock_step(
    input: Instant,
    offsets: Seq<DayOffsets>,
    targets: SolarTargets,
    tz: UtcOffset,
    step: Result<ClockStep, SolarClockError>,
) -> bool {
    let points = interpolation_model(window_data(input, offsets), targets, tz);
    if !window_representable(input, offsets, targets, tz) {
        step matches Err(SolarClockError::OutOfRange)
    } else {
        match step {
            Err(e) => planned(points, input@, Err(e)),
            Ok(ClockStep::Shown { time, delta }) => {
                &&& planned(points, input@, Ok(Evaluation::Exact(delta)))
                &&& time.offset == tz
                &&& time.utc.wf()
                &&& time.utc@ == shifted(input@, delta as int)
            },
            Ok(ClockStep::Interpolate { points: given }) => {
                &&& given@ == points
                &&& planned(points, input@, Ok(Evaluation::Interpolate))
            },
        }
    }
}

/// The solar clock at `input`, as far as it is known without evaluating a
/// curve. `offsets` places the solar events on the three days around `input`:
/// the day before, the day itself, the day after. The anchors of those events
/// are built and ordered; then the result is an error where the interpolant
/// has no value at `input`, the shown time where `input` is the instant of an
/// event, and otherwise the anchors through which the curve is to be laid.
pub fn calculate_solar_clock(
    input: Instant,
    offsets: [DayOffsets; 3],
    targets: SolarTargets,
    tz: UtcOffset,
) -> (r: Result<ClockStep, SolarClockError>)
    requires
        input.wf(),
        targets.wf(),
        tz.wf(),
    ensures
        clock_step(input, offsets@, targets, tz, r),
{
    let days: Vec<SolarDay> = match solar_window(input) {
        Some(d) => d,
        None => { return Err(SolarClockError::OutOfRange); },
    };
    let mut data: Vec<SolarData> = Vec::new();
    let mut k: usize = 0;
    while k < 3
        invariant
            k <= 3,
            days@.len() == 3,
            input.wf(),
            forall|j: int| 0 <= j < 3 ==> (#[trigger] days@[j]).wf(),
            forall|j: int|
                0 <= j < 3 ==> (#[trigger] days@[j]).midnight@ == window_midnight(input, j),
            data@.len() == k,
            forall|j: int|
                0 <= j < k ==> events_representable(window_midnight(input, j), #[trigger] offsets@[j]),
            forall|j: int| 0 <= j < k ==> (#[trigger] data@[j]).wf(),
            forall|j: int|
                0 <= j < k ==> #[trigger] data@[j] == solar_data_at(
                    window_midnight(input, j),
                    offsets@[j],
                ),
        decreases 3 - k,
    {
        let day: SolarDay = days[k];
        match calculate_solar_data(day.midnight, offsets[k]) {
            Some(d) => data.push(d),
            None => { return Err(SolarClockError::OutOfRange); },
        }
        k += 1;
    }
    proof {
        assert(data@ =~= window_data(input, offsets@));
    }
    let points: Vec<Point> = match build_interpolation_model(&data, targets, tz) {
        Some(p) => p,
        None => { return Err(SolarClockError::OutOfRange); },
    };
    match plan_evaluation(&points, input) {
        Err(e) => Err(e),
        Ok(Evaluation::Exact(delta)) => Ok(
            ClockStep::Shown { time: shift_instant(input, delta, tz), delta },
        ),
        Ok(Evaluation::Interpolate) => Ok(ClockStep::Interpolate { points }),
    }
}

/// Anchor exactness: at the instant of an anchor the plan is that anchor's
/// own distance, and no other.
pub proof fn lemma_anchor_exactness(
    points: Seq<Point>,
    k: int,
    plan: Result<Evaluation, SolarClockError>,
)
    requires
        points.len() >= 2,
        strictly_ascending(points),
        0 <= k < points.len(),
        planned(points, points[k].x as int, plan),
    ensures
        plan == Ok::<Evaluation, SolarClockError>(Evaluation::Exact(points[k].y)),
{
    let t = points[k].x as int;
    assert(0 <= k <= points.len() - 1);
    assert(points.first().x <= t) by {
        if k > 0 {
            assert(points[0].x < points[k].x);
        }
    }
    assert(t <= points.last().x) by {
        if k < points.len() - 1 {
            assert(points[k].x < points[points.len() - 1].x);
        }
    }
    assert(domain_verdict(points, t) == Ok::<(), SolarClockError>(()));
    assert(on_anchor(points, t));
    match plan {
        Ok(Evaluation::Exact(d)) => {
            let j = choose|j: int|
                0 <= j < points.len() && (#[trigger] points[j]).x == t && points[j].y == d;
            if j < k {
                assert(points[j].x < points[k].x);
            } else if k < j {
                assert(points[k].x < points[j].x);
            }
        },
        _ => {},
    }
}

/// How the distance is obtained in `step`, or why it is not.
pub open spec fn plan_of(step: Result<ClockStep, SolarClockError>) -> Result<
    Evaluation,
    SolarClockError,
> {
    match step {
        Err(e) => Err(e),
        Ok(ClockStep::Shown { time, delta }) => Ok(Evaluation::Exact(delta)),
        Ok(ClockStep::Interpolate { points }) => Ok(Evaluation::Interpolate),
    }
}

/// At the instant of an anchor of the window the calculation ends with the
/// time shown, at that anchor's own distance from the instant.
pub proof fn lemma_clock_at_anchor(
    input: Instant,
    offsets: Seq<DayOffsets>,
    targets: SolarTargets,
    tz: UtcOffset,
    step: Result<ClockStep, SolarClockError>,
    k: int,
)
    requires
        clock_step(input, offsets, targets, tz, step),
        window_representable(input, offsets, targets, tz),
        strictly_ascending(interpolation_model(window_data(input, offsets), targets, tz)),
        0 <= k < interpolation_model(window_data(input, offsets), targets, tz).len(),
        interpolation_model(window_data(input, offsets), targets, tz)[k].x == input@,
    ensures
        step matches Ok(ClockStep::Shown { time, delta }) && delta == interpolation_model(
            window_data(input, offsets),
            targets,
            tz,
        )[k].y && time.utc@ == shifted(input@, delta as int),
{
    let days = window_data(input, offsets);
    let points = interpolation_model(days, targets, tz);
    lemma_window_has_data(days, targets, tz, input@);
    lemma_emitted_count(days, targets, tz);
    lemma_sorted_by_x(emitted_points(days, targets, tz));
    assert(planned(points, input@, plan_of(step)));
    lemma_anchor_exactness(points, k, plan_of(step));
}

/// The plan is determined by the anchors and the instant.
pub proof fn lemma_plan_is_determined(
    points: Seq<Point>,
    t: int,
    first: Result<Evaluation, SolarClockError>,
    second: Result<Evaluation, SolarClockError>,
)
    requires
        planned(points, t, first),
        planned(points, t, second),
    ensures
        first == second,
{
    if domain_verdict(points, t).is_ok() {
        match (first, second) {
            (Ok(Evaluation::Exact(a)), Ok(Evaluation::Exact(b))) => {
                let i = choose|i: int|
                    0 <= i < points.len() && (#[trigger] points[i]).x == t && points[i].y == a;
                let j = choose|j: int|
                    0 <= j < points.len() && (#[trigger] points[j]).x == t && points[j].y == b;
                if i < j {
                    assert(points[i].x < points[j].x);
                } else if j < i {
                    assert(points[j].x < points[i].x);
                }
            },
            (Ok(Evaluation::Exact(a)), Ok(Evaluation::Interpolate)) => {
                let i = choose|i: int|
                    0 <= i < points.len() && (#[trigger] points[i]).x == t && points[i].y == a;
                assert(points[i].x == t);
            },
            (Ok(Evaluation::Interpolate), Ok(Evaluation::Exact(b))) => {
                let j = choose|j: int|
                    0 <= j < points.len() && (#[trigger] points[j]).x == t && points[j].y == b;
                assert(points[j].x == t);
            },
            _ => {},
        }
    }
}

/// Whether two outcomes of a calculation are the same: the same error, the
/// same time shown at the same distance, or the same anchors.
pub open spec fn same_step(
    first: Result<ClockStep, SolarClockError>,
    second: Result<ClockStep, SolarClockError>,
) -> bool {
    match (first, second) {
        (Err(a), Err(b)) => a == b,
        (
            Ok(ClockStep::Shown { time: t1, delta: d1 }),
            Ok(ClockStep::Shown { time: t2, delta: d2 }),
        ) => t1 == t2 && d1 == d2,
        (Ok(ClockStep::Interpolate { points: p1 }), Ok(ClockStep::Interpolate { points: p2 })) => p1@
            == p2@,
        _ => false,
    }
}

/// The calculation is determined by the absolute instant: whatever wall
/// clock the instant was read from, two calculations at it with the same
/// events, targets and offset come to the same.
pub proof fn lemma_clock_step_is_determined(
    input: Instant,
    offsets: Seq<DayOffsets>,
    targets: SolarTargets,
    tz: UtcOffset,
    first: Result<ClockStep, SolarClockError>,
    second: Result<ClockStep, SolarClockError>,
)
    requires
        input.wf(),
        clock_step(input, offsets, targets, tz, first),
        clock_step(input, offsets, targets, tz, second),
    ensures
        same_step(first, second),
{
    if window_representable(input, offsets, targets, tz) {
        let points = interpolation_model(window_data(input, offsets), targets, tz);
        lemma_plan_is_determined(points, input@, plan_of(first), plan_of(second));
        match (first, second) {
            (
                Ok(ClockStep::Shown { time: t1, delta: d1 }),
                Ok(ClockStep::Shown { time: t2, delta: d2 }),
            ) => {
                lemma_instant_at(t1.utc);
                lemma_instant_at(t2.utc);
            },
            _ => {},
        }
    }
}

/// Moving an instant by a day moves the midnight of its day by a day.
pub proof fn lemma_window_midnights(input: Instant)
    requires
        input.wf(),
    ensures
        window_midnight(input, 0) + NANOS_PER_DAY == window_midnight(input, 1),
        window_midnight(input, 1) + NANOS_PER_DAY == window_midnight(input, 2),
        window_midnight(input, 1) == day_floor(input.secs as int) * 1_000_000_000,
{
    let s = input.secs as int;
    assert(input@ / 1_000_000_000 == s);
    assert((input@ - NANOS_PER_DAY) / 1_000_000_000 == s - 86_400);
    assert((input@ + NANOS_PER_DAY) / 1_000_000_000 == s + 86_400);
    crate::instant::lemma_mod_shift(s, 1);
    crate::instant::lemma_mod_shift(s, -1);
}

/// When a result is owed: where the window is representable, the events of
/// its days come in their order, and the instant lies neither before the
/// first event of the window nor behind the last, the calculation does not
/// end in an error.
pub proof fn lemma_regular_window(
    input: Instant,
    offsets: Seq<DayOffsets>,
    targets: SolarTargets,
    tz: UtcOffset,
    step: Result<ClockStep, SolarClockError>,
)
    requires
        input.wf(),
        offsets.len() == 3,
        clock_step(input, offsets, targets, tz, step),
        window_representable(input, offsets, targets, tz),
        regular_offsets(offsets),
        window_midnight(input, 0) + first_offset(offsets[0]) * 1_000 <= input@,
        input@ <= window_midnight(input, 2) + last_offset(offsets[2]) * 1_000,
    ensures
        step.is_ok(),
{
    let days = window_data(input, offsets);
    lemma_window_midnights(input);
    assert forall|k: int| 0 <= k < 3 implies day_in_order(#[trigger] days[k]) && day_first(
        days[k],
    ) == window_midnight(input, k) + first_offset(offsets[k]) * 1_000 && day_last(days[k])
        == window_midnight(input, k) + last_offset(offsets[k]) * 1_000 by {
        assert(events_representable(window_midnight(input, k), offsets[k]));
    }
    assert(days_in_order(days)) by {
        assert forall|k: int| 0 <= k < days.len() - 1 implies day_last(#[trigger] days[k])
            < day_first(days[k + 1]) by {
            assert(day_in_order(days[k + 1]));
            assert(last_offset(offsets[k]) < 86_400_000_000 + first_offset(offsets[k + 1]));
        }
    }
    lemma_days_in_order(days, targets, tz);
    lemma_window_has_data(days, targets, tz, input@);
    assert(days.first() == days[0] && days.last() == days[2]);
    assert(day_in_order(days[0]) && day_in_order(days[2]));
    let points = interpolation_model(days, targets, tz);
    assert(domain_verdict(points, input@).is_ok());
}

/// At the instant of a solar event the clock shows the event's target: the
/// event moved by the distance of its anchor is the target instant.
pub proof fn lemma_event_shows_target(event: Instant, target: Instant)
    requires
        event.wf(),
        target.wf(),
    ensures
        shifted(event@, crate::anchors::anchor_of(event@, target@).y as int) == target@,
{
}

/// Every day gives at least its transit, so there are at least as many
/// anchors as days, and at most three for each day.
pub proof fn lemma_emitted_count(days: Seq<SolarData>, targets: SolarTargets, tz: UtcOffset)
    ensures
        days.len() <= emitted_points(days, targets, tz).len() <= 3 * days.len(),
    decreases days.len(),
{
    if days.len() > 0 {
        lemma_emitted_count(days.drop_last(), targets, tz);
        assert(1 <= day_points(days.last(), targets, tz).len() <= 3);
    }
}

/// A window of two or more days never lacks data, whether or not the sun
/// crosses the horizon on any of them: the transits alone are enough.
pub proof fn lemma_window_has_data(
    days: Seq<SolarData>,
    targets: SolarTargets,
    tz: UtcOffset,
    t: int,
)
    requires
        days.len() >= 2,
    ensures
        domain_verdict(interpolation_model(days, targets, tz), t) != Err::<(), SolarClockError>(
            SolarClockError::InsufficientData,
        ),
{
    lemma_emitted_count(days, targets, tz);
    lemma_sorted_by_x(emitted_points(days, targets, tz));
}

/// Whether the sun crosses the horizon on none of the days.
pub open spec fn all_polar(days: Seq<SolarData>) -> bool {
    forall|k: int|
        0 <= k < days.len() ==> (#[trigger] days[k]).sunrise.is_none() && days[k].sunset.is_none()
}

/// Polar degradation: where the sun crosses the horizon on none of the days
/// and the window has fewer than two days, the data is insufficient.
pub proof fn lemma_polar_degradation(
    days: Seq<SolarData>,
    targets: SolarTargets,
    tz: UtcOffset,
    t: int,
)
    requires
        all_polar(days),
        days.len() < 2,
    ensures
        domain_verdict(interpolation_model(days, targets, tz), t) == Err::<(), SolarClockError>(
            SolarClockError::InsufficientData,
        ),
{
    lemma_polar_count(days, targets, tz);
    lemma_sorted_by_x(emitted_points(days, targets, tz));
}

/// Where the sun crosses the horizon on none of the days, there is exactly
/// one anchor for each day.
pub proof fn lemma_polar_count(days: Seq<SolarData>, targets: SolarTargets, tz: UtcOffset)
    requires
        all_polar(days),
    ensures
        emitted_points(days, targets, tz).len() == days.len(),
    decreases days.len(),
{
    if days.len() > 0 {
        assert(all_polar(days.drop_last())) by {
            assert forall|k: int| 0 <= k < days.drop_last().len() implies (
            #[trigger] days.drop_last()[k]).sunrise.is_none() && days.drop_last()[k].sunset.is_none() by {
                assert(days.drop_last()[k] == days[k]);
            }
        }
        lemma_polar_count(days.drop_last(), targets, tz);
        assert(days.last() == days[days.len() - 1]);
        assert(day_points(days.last(), targets, tz).len() == 1);
    }
}

} // verus!
