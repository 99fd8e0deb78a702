//! The solar events of one calendar day as absolute instants.

use vstd::prelude::*;
use crate::instant::{Instant, day_floor, instant_at, representable};

verus! {

/// Where the events of one day fall, in microseconds from that day's midnight
/// in UTC. `horizon` holds sunrise and sunset, and is absent on a day on which
/// the sun does not cross the horizon.
#[derive(Clone, Copy, Debug)]
pub struct DayOffsets {
    pub transit: i64,
    pub horizon: Option<(i64, i64)>,
}

/// The solar events of one calendar day. The transit is always there; sunrise
/// and sunset are absent on a polar day or a polar night.
#[derive(Clone, Copy, Debug)]
pub struct SolarData {
    pub sunrise: Option<Instant>,
    pub sunset: Option<Instant>,
    pub transit: Instant,
}

impl SolarData {
    /// Every event that is there is a representable instant.
    pub open spec fn wf(self) -> bool {
        &&& self.transit.wf()
        &&& self.sunrise matches Some(t) ==> t.wf()
        &&& self.sunset matches Some(t) ==> t.wf()
    }

    /// Whether these are the events that `offsets` places on the day that starts
    /// `midnight` nanoseconds after the epoch.
    pub open spec fn placed(self, midnight: int, offsets: DayOffsets) -> bool {
        &&& self.transit@ == midnight + offsets.transit * 1_000
        &&& match offsets.horizon {
            Some((rise, set)) => {
                &&& self.sunrise matches Some(t) && t@ == midnight + rise * 1_000
                &&& self.sunset matches Some(t) && t@ == midnight + set * 1_000
            },
            None => self.sunrise.is_none() && self.sunset.is_none(),
        }
    }
}

/// The events that `offsets` places on the day that starts `midnight`
/// nanoseconds after the epoch.
pub open spec fn solar_data_at(midnight: int, offsets: DayOffsets) -> SolarData {
    SolarData {
        sunrise: match offsets.horizon {
            Some((rise, _)) => Some(instant_at(midnight + rise * 1_000)),
            None => None,
        },
        sunset: match offsets.horizon {
            Some((_, set)) => Some(instant_at(midnight + set * 1_000)),
            None => None,
        },
        transit: instant_at(midnight + offsets.transit * 1_000),
    }
}

/// The offset of the first event of the day, in microseconds.
pub open spec fn first_offset(offsets: DayOffsets) -> int {
    match offsets.horizon {
        Some((rise, _)) => rise as int,
        None => offsets.transit as int,
    }
}

/// The offset of the last event of the day, in microseconds.
pub open spec fn last_offset(offsets: DayOffsets) -> int {
    match offsets.horizon {
        Some((_, set)) => set as int,
        None => offsets.transit as int,
    }
}

/// Whether the events of each day come in their order, sunrise before
/// transit before sunset, and the first event of each day comes behind the
/// last of the day before.
pub open spec fn regular_offsets(offsets: Seq<DayOffsets>) -> bool {
    &&& forall|k: int|
        0 <= k < offsets.len() ==> ((#[trigger] offsets[k]).horizon matches Some((rise, set))
            ==> rise < offsets[k].transit < set)
    &&& forall|k: int|
        0 <= k < offsets.len() - 1 ==> last_offset(#[trigger] offsets[k]) < 86_400_000_000
            + first_offset(offsets[k + 1])
}

/// Whether every event that `offsets` places on the day that starts `midnight`
/// nanoseconds after the epoch is a representable instant.
pub open spec fn events_representable(midnight: int, offsets: DayOffsets) -> bool {
    &&& representable(midnight + offsets.transit * 1_000)
    &&& offsets.horizon matches Some((rise, set)) ==> representable(midnight + rise * 1_000)
        && representable(midnight + set * 1_000)
}

/// The solar events of the UTC calendar day that holds `date`: each event lies
/// at its offset from that day's midnight. `None` exactly when one of the
/// events would not be a representable instant.
pub fn calculate_solar_data(date: Instant, offsets: DayOffsets) -> (r: Option<SolarData>)
    requires
        date.wf(),
    ensures
        r.is_some() <==> events_representable(day_floor(date.secs as int) * 1_000_000_000, offsets),
        r matches Some(data) ==> {
            &&& data.wf()
            &&& data == solar_data_at(day_floor(date.secs as int) * 1_000_000_000, offsets)
            &&& data.placed(day_floor(date.secs as int) * 1_000_000_000, offsets)
        },
{
    let midnight: Instant = date.midnight();
    let transit: Instant = match midnight.checked_add_micros(offsets.transit) {
        Some(t) => t,
        None => { return None; },
    };
    match offsets.horizon {
        Some((rise, set)) => {
            let sunrise: Instant = match midnight.checked_add_micros(rise) {
                Some(t) => t,
                None => { return None; },
            };
            let sunset: Instant = match midnight.checked_add_micros(set) {
                Some(t) => t,
                None => { return None; },
            };
            Some(SolarData { sunrise: Some(sunrise), sunset: Some(sunset), transit })
        },
        None => Some(SolarData { sunrise: None, sunset: None, transit }),
    }
}

} // verus!
