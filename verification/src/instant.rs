//! Absolute instants with nanosecond resolution, fixed offsets and times of day.

use vstd::prelude::*;

verus! {

/// Seconds since the epoch of the earliest representable instant
/// (midnight on the first day of the proleptic year -262143).
pub const MIN_TIMESTAMP: i64 = -8_334_601_228_800;

/// Seconds since the epoch of the last representable second
/// (the last second of the year 262142).
pub const MAX_TIMESTAMP: i64 = 8_210_266_876_799;

/// The length of a second in nanoseconds.
pub const NANOS_PER_SECOND: i128 = 1_000_000_000;

/// Whether a count of nanoseconds since the epoch denotes a representable instant.
pub open spec fn representable(nanos: int) -> bool {
    MIN_TIMESTAMP * 1_000_000_000 <= nanos <= MAX_TIMESTAMP * 1_000_000_000 + 999_999_999
}

/// The start of the day that holds `secs`, for days counted from the epoch.
pub open spec fn day_floor(secs: int) -> int {
    secs - secs % 86_400
}

/// An absolute instant: whole seconds since the epoch and the nanoseconds past them.
#[derive(Clone, Copy, Debug, PartialEq, Eq, Structural)]
pub struct Instant {
    pub secs: i64,
    pub nanos: u32,
}

impl View for Instant {
    type V = int;

    /// Nanoseconds since the epoch.
    open spec fn view(&self) -> int {
        self.secs * 1_000_000_000 + self.nanos
    }
}

impl Instant {
    /// The seconds lie in the range of instants, the nanoseconds below one second.
    pub open spec fn wf(self) -> bool {
        &&& MIN_TIMESTAMP <= self.secs <= MAX_TIMESTAMP
        &&& self.nanos < 1_000_000_000
    }

    /// The instant `secs` seconds and `nanos` nanoseconds after the epoch,
    /// if the range holds it and `nanos` is below one second.
    pub fn new(secs: i64, nanos: u32) -> (r: Option<Instant>)
        ensures
            r.is_some() <==> (MIN_TIMESTAMP <= secs <= MAX_TIMESTAMP && nanos < 1_000_000_000),
            r matches Some(t) ==> t.secs == secs && t.nanos == nanos && t.wf(),
    {
        if secs < MIN_TIMESTAMP || secs > MAX_TIMESTAMP || nanos >= 1_000_000_000 {
            None
        } else {
            Some(Instant { secs, nanos })
        }
    }

    /// The absolute instant of a wall clock that stands `offset` east of UTC
    /// and reads `local_secs` seconds since the epoch and `nanos` nanoseconds
    /// past them. `None` exactly when the range does not hold that instant or
    /// `nanos` is not below one second.
    pub fn from_local(local_secs: i64, nanos: u32, offset: UtcOffset) -> (r: Option<Instant>)
        requires
            offset.wf(),
        ensures
            r == absolute(local_secs as int, nanos as int, offset),
            r matches Some(t) ==> t.wf(),
    {
        match local_secs.checked_sub(offset.seconds as i64) {
            Some(secs) => Instant::new(secs, nanos),
            None => None,
        }
    }

    /// Nanoseconds since the epoch.
    pub fn to_nanos(self) -> (n: i128)
        ensures
            n == self@,
            self.wf() ==> representable(n as int),
    {
        let s: i128 = self.secs as i128;
        let f: i128 = self.nanos as i128;
        s * NANOS_PER_SECOND + f
    }

    /// The instant that lies `n` nanoseconds after the epoch, if the range holds it.
    pub fn from_nanos(n: i128) -> (r: Option<Instant>)
        ensures
            r.is_some() <==> representable(n as int),
            r matches Some(t) ==> t.wf() && t@ == n && t == instant_at(n as int),
    {
        let lowest: i128 = (MIN_TIMESTAMP as i128) * NANOS_PER_SECOND;
        let highest: i128 = (MAX_TIMESTAMP as i128) * NANOS_PER_SECOND + 999_999_999;
        if n < lowest || n > highest {
            return None;
        }
        let shifted: u128 = (n - lowest) as u128;
        let whole: u128 = shifted / 1_000_000_000;
        let part: u128 = shifted % 1_000_000_000;
        let secs: i64 = (MIN_TIMESTAMP as i128 + whole as i128) as i64;
        Some(Instant { secs, nanos: part as u32 })
    }

    /// Midnight of the day, counted from the epoch, that holds this instant.
    pub fn midnight(self) -> (m: Instant)
        requires
            self.wf(),
        ensures
            m.wf(),
            m.secs == day_floor(self.secs as int),
            m.nanos == 0,
    {
        let past: i64 = seconds_into_day(self.secs);
        Instant { secs: self.secs - past, nanos: 0 }
    }

    /// This instant moved by `delta` nanoseconds, if the range holds the result.
    pub fn checked_add_nanos(self, delta: i128) -> (r: Option<Instant>)
        ensures
            r.is_some() <==> representable(self@ + delta),
            r matches Some(t) ==> t.wf() && t@ == self@ + delta && t == instant_at(self@ + delta),
    {
        let base: i128 = self.to_nanos();
        match base.checked_add(delta) {
            Some(n) => Instant::from_nanos(n),
            None => None,
        }
    }

    /// This instant moved by `micros` microseconds, if the range holds the result.
    pub fn checked_add_micros(self, micros: i64) -> (r: Option<Instant>)
        ensures
            r.is_some() <==> representable(self@ + micros * 1_000),
            r matches Some(t) ==> t.wf() && t@ == self@ + micros * 1_000 && t == instant_at(
                self@ + micros * 1_000,
            ),
    {
        let wide: i128 = micros as i128;
        self.checked_add_nanos(wide * 1_000)
    }
}

/// How far `secs` lies into its day, for the seconds of the range of
/// instants and of one day to either side of it.
pub fn seconds_into_day(secs: i64) -> (past: i64)
    requires
        MIN_TIMESTAMP - 86_400 <= secs <= MAX_TIMESTAMP + 86_400,
    ensures
        past == secs % 86_400,
        0 <= past < 86_400,
{
    let raised: u64 = (secs - (MIN_TIMESTAMP - 86_400)) as u64;
    let past: u64 = raised % 86_400;
    assert(past as int == (secs as int) % 86_400) by {
        lemma_mod_shift(secs as int, 96_465_293);
    }
    past as i64
}

/// The instant that lies `nanos` nanoseconds after the epoch.
pub open spec fn instant_at(nanos: int) -> Instant {
    Instant { secs: (nanos / 1_000_000_000) as i64, nanos: (nanos % 1_000_000_000) as u32 }
}

/// An instant is given by its distance from the epoch.
pub proof fn lemma_instant_at(t: Instant)
    requires
        t.wf(),
    ensures
        instant_at(t@) == t,
{
}

/// The absolute instant of the wall-clock reading `local_secs`, `nanos` in `offset`.
pub open spec fn absolute(local_secs: int, nanos: int, offset: UtcOffset) -> Option<Instant> {
    let secs = local_secs - offset.seconds;
    if MIN_TIMESTAMP <= secs <= MAX_TIMESTAMP && 0 <= nanos < 1_000_000_000 {
        Some(Instant { secs: secs as i64, nanos: nanos as u32 })
    } else {
        None
    }
}

/// Two wall-clock readings in different offsets that denote one moment give
/// one and the same instant, so whatever is computed from it is the same.
pub proof fn lemma_civil_representation_invariance(
    local_a: int,
    offset_a: UtcOffset,
    local_b: int,
    offset_b: UtcOffset,
    nanos: int,
)
    requires
        local_a - offset_a.seconds == local_b - offset_b.seconds,
    ensures
        absolute(local_a, nanos, offset_a) == absolute(local_b, nanos, offset_b),
{
}

/// Adding whole days to a number of seconds leaves its place within the day.
pub proof fn lemma_mod_shift(secs: int, days: int)
    ensures
        (secs + days * 86_400) % 86_400 == secs % 86_400,
{
    vstd::arithmetic::div_mod::lemma_mod_multiples_vanish(days, secs, 86_400);
}

/// A fixed offset from UTC in seconds, east positive, of less than a day.
#[derive(Clone, Copy, Debug, PartialEq, Eq, Structural)]
pub struct UtcOffset {
    pub seconds: i32,
}

impl UtcOffset {
    /// The offset is shorter than a day.
    pub open spec fn wf(self) -> bool {
        -86_400 < self.seconds < 86_400
    }

    /// The offset `seconds` east of UTC, if it is shorter than a day.
    pub fn east(seconds: i32) -> (r: Option<UtcOffset>)
        ensures
            r.is_some() <==> -86_400 < seconds < 86_400,
            r matches Some(o) ==> o.seconds == seconds && o.wf(),
    {
        if seconds <= -86_400 || seconds >= 86_400 {
            None
        } else {
            Some(UtcOffset { seconds })
        }
    }
}

/// A wall-clock time of day: seconds from midnight and the nanoseconds past them.
#[derive(Clone, Copy, Debug, PartialEq, Eq, Structural)]
pub struct TimeOfDay {
    pub seconds: u32,
    pub nanos: u32,
}

impl View for TimeOfDay {
    type V = int;

    /// Nanoseconds from midnight.
    open spec fn view(&self) -> int {
        self.seconds * 1_000_000_000 + self.nanos
    }
}

impl TimeOfDay {
    /// The seconds lie within a day, the nanoseconds below one second.
    pub open spec fn wf(self) -> bool {
        self.seconds < 86_400 && self.nanos < 1_000_000_000
    }

    /// The time `hour:min:sec`, if each part is in its range.
    pub fn from_hms(hour: u32, min: u32, sec: u32) -> (r: Option<TimeOfDay>)
        ensures
            r.is_some() <==> hour < 24 && min < 60 && sec < 60,
            r matches Some(t) ==> t.wf() && t.seconds == hour * 3600 + min * 60 + sec && t.nanos
                == 0,
    {
        if hour >= 24 || min >= 60 || sec >= 60 {
            None
        } else {
            Some(TimeOfDay { seconds: hour * 3600 + min * 60 + sec, nanos: 0 })
        }
    }

    /// Whether this time comes strictly before `other`.
    pub fn is_before(self, other: TimeOfDay) -> (r: bool)
        requires
            self.wf(),
            other.wf(),
        ensures
            r == (self@ < other@),
    {
        self.seconds < other.seconds || (self.seconds == other.seconds && self.nanos < other.nanos)
    }
}

} // verus!
