//! Calendar days around an instant: the day of the year and the day's midnight.

use vstd::prelude::*;
use crate::instant::{Instant, MAX_TIMESTAMP, MIN_TIMESTAMP, day_floor, representable};

verus! {

/// The day of the year, counted from 1, of the UTC calendar date that holds the
/// second `secs` after the epoch, as the `chrono` crate computes it.
pub uninterp spec fn ordinal_of_day(secs: int) -> int;

/// Calls `chrono::DateTime::from_timestamp` and `chrono::Datelike::ordinal`.
///
/// Trusted: `from_timestamp` yields a date exactly for the seconds of the years
/// -262143 to 262142, and `ordinal` of that date lies between 1 and 366.
#[verifier::external_body]
fn day_ordinal(secs: i64) -> (r: Option<u32>)
    ensures
        r.is_some() <==> MIN_TIMESTAMP <= secs <= MAX_TIMESTAMP,
        r matches Some(d) ==> d == ordinal_of_day(secs as int) && 1 <= d <= 366,
{
    match chrono::DateTime::from_timestamp(secs, 0) {
        Some(date) => Some(chrono::Datelike::ordinal(&date)),
        None => None,
    }
}

/// One calendar day of the window: its day of the year and its midnight in UTC.
#[derive(Clone, Copy, Debug, PartialEq, Eq, Structural)]
pub struct SolarDay {
    pub ordinal: u32,
    pub midnight: Instant,
}

impl SolarDay {
    /// The day of the year is one, and the midnight is a representable midnight.
    pub open spec fn wf(self) -> bool {
        &&& 1 <= self.ordinal <= 366
        &&& self.midnight.wf()
        &&& self.midnight.nanos == 0
        &&& self.midnight.secs % 86_400 == 0
    }

    /// Whether this is the calendar day that holds the instant `nanos` after the epoch.
    pub open spec fn holds(self, nanos: int) -> bool {
        &&& self.ordinal == ordinal_of_day(nanos / 1_000_000_000)
        &&& self.midnight.secs == day_floor(nanos / 1_000_000_000)
        &&& self.midnight.nanos == 0
    }
}

/// The calendar day in UTC that holds `date`.
pub fn solar_day(date: Instant) -> (day: SolarDay)
    requires
        date.wf(),
    ensures
        day.wf(),
        day.holds(date@),
{
    let midnight: Instant = date.midnight();
    // Every instant of the range lies on a calendar date, so the day is always there.
    let ordinal: u32 = match day_ordinal(date.secs) {
        Some(d) => d,
        None => 1,
    };
    SolarDay { ordinal, midnight }
}

/// The length of a day in nanoseconds.
pub const NANOS_PER_DAY: i128 = 86_400_000_000_000;

/// The three calendar days around `center`: the days that hold the instant one
/// day before it, the instant itself and the instant one day after it.
/// `None` exactly when one of the two neighbours is not representable.
pub fn solar_window(center: Instant) -> (r: Option<Vec<SolarDay>>)
    requires
        center.wf(),
    ensures
        r.is_some() <==> representable(center@ - NANOS_PER_DAY) && representable(
            center@ + NANOS_PER_DAY,
        ),
        r matches Some(days) ==> {
            &&& days@.len() == 3
            &&& forall|k: int| 0 <= k < 3 ==> (#[trigger] days@[k]).wf()
            &&& days@[0].holds(center@ - NANOS_PER_DAY)
            &&& days@[1].holds(center@)
            &&& days@[2].holds(center@ + NANOS_PER_DAY)
        },
{
    let before: Instant = match center.checked_add_nanos(-NANOS_PER_DAY) {
        Some(t) => t,
        None => { return None; },
    };
    let after: Instant = match center.checked_add_nanos(NANOS_PER_DAY) {
        Some(t) => t,
        None => { return None; },
    };
    let mut days: Vec<SolarDay> = Vec::new();
    days.push(solar_day(before));
    days.push(solar_day(center));
    days.push(solar_day(after));
    Some(days)
}

} // verus!
