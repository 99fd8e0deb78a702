//! Refinement of a transit by golden-section search: the instant near an
//! approximate transit at which the zenith angle of the sun is least.
//!
//! The search keeps a bracket of offsets from the approximate transit. In
//! each round the angle is tried at two probes inside the bracket, and the
//! bracket is cut down to the part that must hold the minimum.

use vstd::prelude::*;
use crate::events::DayOffsets;

verus! {

/// Half the width of the window that is searched: twenty minutes, in nanoseconds.
pub const HALF_WINDOW: i64 = 1_200_000_000_000;

/// The width, in nanoseconds, at which the search ends: one microsecond.
pub const TOLERANCE: i64 = 1_000;

/// What trying the zenith angle at one probe gave.
#[derive(Clone, Copy, Debug, PartialEq, Eq, Structural)]
pub enum Trial {
    /// The angle could not be evaluated there. It counts as greater than any angle.
    Failed,
    /// The angle, in the caller's unit.
    Angle(i64),
}

/// Whether the left trial counts as strictly lower than the right one.
pub open spec fn left_is_lower(left: Trial, right: Trial) -> bool {
    match (left, right) {
        (Trial::Angle(a), Trial::Angle(b)) => a < b,
        (Trial::Angle(_), Trial::Failed) => true,
        (Trial::Failed, _) => false,
    }
}

/// A bracket of offsets from the approximate transit, in nanoseconds.
#[derive(Clone, Copy, Debug, PartialEq, Eq, Structural)]
pub struct Bracket {
    pub lo: i64,
    pub hi: i64,
}

impl Bracket {
    /// The bracket lies within the window, its lower end not above its upper end.
    pub open spec fn wf(self) -> bool {
        -HALF_WINDOW <= self.lo <= self.hi <= HALF_WINDOW
    }

    /// The distance from the lower end to the upper end.
    pub open spec fn width(self) -> int {
        self.hi - self.lo
    }

    /// How far each probe stands from the far end of the bracket: the width
    /// divided by the golden ratio.
    pub open spec fn reach(self) -> int {
        self.width() * 618_033_989 / 1_000_000_000
    }

    /// The probe nearer to the lower end.
    pub open spec fn left_probe(self) -> int {
        self.hi - self.reach()
    }

    /// The probe nearer to the upper end.
    pub open spec fn right_probe(self) -> int {
        self.lo + self.reach()
    }

    /// The bracket after a round with the given trials at the two probes:
    /// its lower part up to the right probe where the left trial is lower,
    /// else its upper part from the left probe.
    pub open spec fn narrowed(self, left: Trial, right: Trial) -> Bracket {
        if left_is_lower(left, right) {
            Bracket { lo: self.lo, hi: self.right_probe() as i64 }
        } else {
            Bracket { lo: self.left_probe() as i64, hi: self.hi }
        }
    }

    /// The middle of the bracket, rounded down.
    pub open spec fn middle(self) -> int {
        (self.lo + self.hi) / 2
    }

    /// The bracket that the search starts from: twenty minutes to either side.
    pub fn window() -> (b: Bracket)
        ensures
            b.wf(),
            b.lo == -HALF_WINDOW,
            b.hi == HALF_WINDOW,
    {
        Bracket { lo: -HALF_WINDOW, hi: HALF_WINDOW }
    }

    /// Whether the search has come to its end.
    pub fn is_narrow(self) -> (r: bool)
        requires
            self.wf(),
        ensures
            r == (self.width() <= TOLERANCE),
    {
        self.hi - self.lo <= TOLERANCE
    }

    /// The two offsets at which the angle is to be tried next.
    pub fn probes(self) -> (r: (i64, i64))
        requires
            self.wf(),
        ensures
            r.0 == self.left_probe(),
            r.1 == self.right_probe(),
            self.lo <= r.0 <= self.hi,
            self.lo <= r.1 <= self.hi,
            self.width() > TOLERANCE ==> self.lo < r.0 < r.1 < self.hi,
    {
        let width: u128 = (self.hi - self.lo) as u128;
        let reach: i64 = (width * 618_033_989 / 1_000_000_000) as i64;
        (self.hi - reach, self.lo + reach)
    }

    /// Cuts the bracket down after a round. A trial that failed counts as
    /// greater than any angle.
    pub fn narrow(self, left: Trial, right: Trial) -> (b: Bracket)
        requires
            self.wf(),
        ensures
            b == self.narrowed(left, right),
            b.wf(),
            self.lo <= b.lo,
            b.hi <= self.hi,
            b.width() == self.reach(),
            self.width() > 0 ==> b.width() < self.width(),
    {
        let (c, d) = self.probes();
        let lower: bool = match left {
            Trial::Failed => false,
            Trial::Angle(a) => match right {
                Trial::Failed => true,
                Trial::Angle(b) => a < b,
            },
        };
        if lower {
            Bracket { lo: self.lo, hi: d }
        } else {
            Bracket { lo: c, hi: self.hi }
        }
    }

    /// The result of the search: the middle of the bracket.
    pub fn midpoint(self) -> (m: i64)
        requires
            self.wf(),
        ensures
            m == self.middle(),
            self.lo <= m <= self.hi,
    {
        let raised: u64 = (self.lo + self.hi + 2 * HALF_WINDOW) as u64;
        (raised / 2) as i64 - HALF_WINDOW
    }
}

/// How many rounds a search takes from a bracket of the given width.
pub open spec fn rounds_left(width: int) -> nat
    decreases width,
{
    if width <= TOLERANCE {
        0
    } else {
        1 + rounds_left(width * 618_033_989 / 1_000_000_000)
    }
}

/// A round leaves one round less to go, whatever the trials gave.
pub proof fn lemma_round_counts(bracket: Bracket, left: Trial, right: Trial)
    requires
        bracket.wf(),
        bracket.width() > TOLERANCE,
    ensures
        rounds_left(bracket.narrowed(left, right).width()) + 1 == rounds_left(bracket.width()),
{
}

/// A search from a bracket wider than the tolerance takes one round more
/// than the search from the bracket that the round leaves.
pub proof fn lemma_one_round(width: int, next: int)
    requires
        width > TOLERANCE,
        next == width * 618_033_989 / 1_000_000_000,
    ensures
        rounds_left(width) == rounds_left(next) + 1,
{
}

/// The search over the whole window takes forty-five rounds, whatever the
/// angle is and wherever its minimum lies.
pub proof fn lemma_search_is_bounded()
    ensures
        rounds_left(2 * HALF_WINDOW) == 45,
{
    assert(rounds_left(944) == 0);
    lemma_one_round(1_529, 944);
    lemma_one_round(2_475, 1_529);
    lemma_one_round(4_005, 2_475);
    lemma_one_round(6_481, 4_005);
    lemma_one_round(10_487, 6_481);
    lemma_one_round(16_969, 10_487);
    lemma_one_round(27_458, 16_969);
    lemma_one_round(44_428, 27_458);
    lemma_one_round(71_887, 44_428);
    lemma_one_round(116_316, 71_887);
    lemma_one_round(188_204, 116_316);
    lemma_one_round(304_521, 188_204);
    lemma_one_round(492_726, 304_521);
    lemma_one_round(797_249, 492_726);
    lemma_one_round(1_289_976, 797_249);
    lemma_one_round(2_087_226, 1_289_976);
    lemma_one_round(3_377_203, 2_087_226);
    lemma_one_round(5_464_430, 3_377_203);
    lemma_one_round(8_841_634, 5_464_430);
    lemma_one_round(14_306_065, 8_841_634);
    lemma_one_round(23_147_701, 14_306_065);
    lemma_one_round(37_453_767, 23_147_701);
    lemma_one_round(60_601_469, 37_453_767);
    lemma_one_round(98_055_238, 60_601_469);
    lemma_one_round(158_656_708, 98_055_238);
    lemma_one_round(256_711_946, 158_656_708);
    lemma_one_round(415_368_654, 256_711_946);
    lemma_one_round(672_080_600, 415_368_654);
    lemma_one_round(1_087_449_255, 672_080_600);
    lemma_one_round(1_759_529_855, 1_087_449_255);
    lemma_one_round(2_846_979_110, 1_759_529_855);
    lemma_one_round(4_606_508_964, 2_846_979_110);
    lemma_one_round(7_453_488_071, 4_606_508_964);
    lemma_one_round(12_059_997_030, 7_453_488_071);
    lemma_one_round(19_513_485_091, 12_059_997_030);
    lemma_one_round(31_573_482_105, 19_513_485_091);
    lemma_one_round(51_086_967_170, 31_573_482_105);
    lemma_one_round(82_660_449_230, 51_086_967_170);
    lemma_one_round(133_747_416_326, 82_660_449_230);
    lemma_one_round(216_407_865_436, 133_747_416_326);
    lemma_one_round(350_155_281_567, 216_407_865_436);
    lemma_one_round(566_563_146_687, 350_155_281_567);
    lemma_one_round(916_718_427_742, 566_563_146_687);
    lemma_one_round(1_483_281_573_600, 916_718_427_742);
    lemma_one_round(2_400_000_000_000, 1_483_281_573_600);
}

/// Whether `f` falls strictly from `lo` to `m` and rises strictly from `m` to `hi`.
pub open spec fn strictly_unimodal(f: spec_fn(int) -> int, lo: int, hi: int, m: int) -> bool {
    &&& lo <= m <= hi
    &&& forall|a: int, b: int| lo <= a < b <= m ==> #[trigger] f(a) > #[trigger] f(b)
    &&& forall|a: int, b: int| m <= a < b <= hi ==> #[trigger] f(a) < #[trigger] f(b)
}

/// A round of the search does not lose the minimum: where the angle falls
/// strictly to its minimum and rises strictly behind it, and the trials are
/// the angles at the two probes, the cut bracket still holds the minimum.
pub proof fn lemma_minimum_stays_bracketed(bracket: Bracket, f: spec_fn(int) -> int, m: int)
    requires
        bracket.wf(),
        bracket.width() > TOLERANCE,
        strictly_unimodal(f, bracket.lo as int, bracket.hi as int, m),
        i64::MIN <= f(bracket.left_probe()) <= i64::MAX,
        i64::MIN <= f(bracket.right_probe()) <= i64::MAX,
    ensures
        ({
            let cut = bracket.narrowed(
                Trial::Angle(f(bracket.left_probe()) as i64),
                Trial::Angle(f(bracket.right_probe()) as i64),
            );
            cut.lo <= m <= cut.hi
        }),
{
    let c = bracket.left_probe();
    let d = bracket.right_probe();
    assert(bracket.lo < c < d < bracket.hi);
    if f(c) < f(d) {
        if m > d {
            assert(f(c) > f(d));
        }
    } else {
        if m < c {
            assert(f(c) < f(d));
        }
    }
}

/// The bracket that the search ends with, where the angle at every offset is `f`.
pub open spec fn searched(f: spec_fn(int) -> int, bracket: Bracket) -> Bracket
    decreases bracket.width(),
{
    if bracket.width() <= TOLERANCE || !bracket.wf() {
        bracket
    } else {
        searched(
            f,
            bracket.narrowed(
                Trial::Angle(f(bracket.left_probe()) as i64),
                Trial::Angle(f(bracket.right_probe()) as i64),
            ),
        )
    }
}

/// The search finds the minimum: where the angle falls strictly to its
/// minimum and rises strictly behind it, the search ends with a bracket no
/// wider than the tolerance that holds the minimum, so that the result lies
/// within the tolerance of it.
pub proof fn lemma_search_finds_minimum(bracket: Bracket, f: spec_fn(int) -> int, m: int)
    requires
        bracket.wf(),
        strictly_unimodal(f, bracket.lo as int, bracket.hi as int, m),
        forall|x: int| bracket.lo <= x <= bracket.hi ==> i64::MIN <= #[trigger] f(x) <= i64::MAX,
    ensures
        searched(f, bracket).wf(),
        searched(f, bracket).width() <= TOLERANCE,
        searched(f, bracket).lo <= m <= searched(f, bracket).hi,
        m - TOLERANCE <= searched(f, bracket).middle() <= m + TOLERANCE,
    decreases bracket.width(),
{
    if bracket.width() > TOLERANCE {
        let c = bracket.left_probe();
        let d = bracket.right_probe();
        assert(bracket.lo < c < d < bracket.hi);
        let cut = bracket.narrowed(Trial::Angle(f(c) as i64), Trial::Angle(f(d) as i64));
        lemma_minimum_stays_bracketed(bracket, f, m);
        assert(cut.wf() && bracket.lo <= cut.lo && cut.hi <= bracket.hi);
        assert(cut.width() < bracket.width());
        lemma_search_finds_minimum(cut, f, m);
    }
}

/// The offsets of a day with the transit moved to the result of the search,
/// to the microsecond. Where the moved transit does not fit, the offsets
/// stay as they are.
pub fn refine_transit(offsets: DayOffsets, bracket: Bracket) -> (r: DayOffsets)
    requires
        bracket.wf(),
    ensures
        r.horizon == offsets.horizon,
        r.transit == refined_transit(offsets.transit as int, bracket),
{
    let mid: i64 = bracket.midpoint();
    let raised: u64 = (mid + HALF_WINDOW) as u64;
    let micros: i64 = (raised / 1_000) as i64 - 1_200_000_000;
    match offsets.transit.checked_add(micros) {
        Some(t) => DayOffsets { transit: t, horizon: offsets.horizon },
        None => offsets,
    }
}

/// The transit `transit`, in microseconds, moved by the middle of `bracket`.
pub open spec fn refined_transit(transit: int, bracket: Bracket) -> int {
    let moved = transit + bracket.middle() / 1_000;
    if i64::MIN <= moved <= i64::MAX {
        moved
    } else {
        transit
    }
}

} // verus!
