//! The central time type: a signed attosecond count tagged with a current
//! time scale and a target time scale.
use vstd::prelude::*;
use crate::scale::Scale;

pub mod helpers;
pub mod arithmetic;
pub mod to_unit;
pub mod gregorian;
pub mod julian_date;
pub mod ops;
pub mod constructors;
pub mod calendar_proofs;
pub mod from_str;
pub mod wire;
pub mod float_bits;
pub mod ccsds;
pub mod numbers_traits;
pub mod scale_conv;
pub mod relativistic;
pub mod civil;
pub mod ccsds_dt;
pub mod epochs;

verus! {

/// Attoseconds per femtosecond.
pub const ATTOS_PER_FS: i128 = 1_000;
/// Attoseconds per picosecond.
pub const ATTOS_PER_PS: i128 = 1_000_000;
/// Attoseconds per nanosecond.
pub const ATTOS_PER_NS: i128 = 1_000_000_000;
/// Attoseconds per microsecond.
pub const ATTOS_PER_US: i128 = 1_000_000_000_000;
/// Attoseconds per millisecond.
pub const ATTOS_PER_MS: i128 = 1_000_000_000_000_000;
/// Attoseconds per second.
pub const ATTOS_PER_SEC: i128 = 1_000_000_000_000_000_000;
/// Attoseconds per minute.
pub const ATTOS_PER_MIN: i128 = 60_000_000_000_000_000_000;
/// Attoseconds per hour.
pub const ATTOS_PER_HOUR: i128 = 3_600_000_000_000_000_000_000;
/// Attoseconds per half day.
pub const ATTOS_PER_HALF_DAY: i128 = 43_200_000_000_000_000_000_000;
/// Attoseconds per day (86 400 s).
pub const ATTOS_PER_DAY: i128 = 86_400_000_000_000_000_000_000;
/// Attoseconds per week.
pub const ATTOS_PER_WEEK: i128 = 604_800_000_000_000_000_000_000;
/// Julian day number of 2000-01-01 (the day that starts at the library epoch, noon).
pub const JD_2000: i128 = 2_451_545;

/// A high-precision instant or duration with attosecond resolution.
///
/// Comparison and equality look at `attos` only; `scale` and `target` are
/// labels that no comparison consults.
#[derive(Clone, Copy, Debug)]
pub struct Dt {
    /// Signed attosecond count (an elapsed span, or an offset from an epoch;
    /// calendar functions use 2000-01-01 noon).
    pub attos: i128,
    /// The current time scale of this value.
    pub scale: Scale,
    /// The time scale that output functions convert to.
    pub target: Scale,
}

impl Dt {
    /// A `Dt` from its three fields.
    pub fn new(attos: i128, scale: Scale, target: Scale) -> (r: Dt)
        ensures
            r.attos == attos,
            r.scale == scale,
            r.target == target,
    {
        Dt { attos, scale, target }
    }

    /// The same value with `target` replaced by `t`.
    pub fn target(&self, t: Scale) -> (r: Dt)
        ensures
            r.attos == self.attos,
            r.scale == self.scale,
            r.target == t,
    {
        Dt::new(self.attos, self.scale, t)
    }

    /// The same attoseconds relabelled with scale `s`; no conversion is made.
    pub fn with(&self, s: Scale) -> (r: Dt)
        ensures
            r.attos == self.attos,
            r.scale == s,
            r.target == self.target,
    {
        Dt::new(self.attos, s, self.target)
    }

    /// Zero attoseconds on TAI.
    pub fn zero() -> (r: Dt)
        ensures
            r.attos == 0,
            r.scale == Scale::TAI,
            r.target == Scale::TAI,
    {
        Dt::new(0, Scale::TAI, Scale::TAI)
    }

    /// The largest value, `i128::MAX` attoseconds on TAI.
    pub fn max_value() -> (r: Dt)
        ensures
            r.attos == i128::MAX,
            r.scale == Scale::TAI,
            r.target == Scale::TAI,
    {
        Dt::new(i128::MAX, Scale::TAI, Scale::TAI)
    }

    /// The smallest value, `i128::MIN` attoseconds on TAI.
    pub fn min_value() -> (r: Dt)
        ensures
            r.attos == i128::MIN,
            r.scale == Scale::TAI,
            r.target == Scale::TAI,
    {
        Dt::new(i128::MIN, Scale::TAI, Scale::TAI)
    }

    /// One day of 86 400 s on TAI.
    pub fn one_day() -> (r: Dt)
        ensures
            r.attos == ATTOS_PER_DAY,
            r.scale == Scale::TAI,
            r.target == Scale::TAI,
    {
        Dt::new(ATTOS_PER_DAY, Scale::TAI, Scale::TAI)
    }

    /// 1970-01-01 00:00:00 UTC, as TAI attoseconds since the library epoch, targeting UTC.
    pub fn unix_epoch() -> (r: Dt)
        ensures
            r.attos == -946_728_000 * ATTOS_PER_SEC,
            r.attos == crate::dt::epochs::unix_epoch_count(),
            r.scale == Scale::TAI,
            r.target == Scale::UTC,
    {
        Dt::new(-946_728_000_000_000_000_000_000_000i128, Scale::TAI, Scale::UTC)
    }

    /// 1980-01-06 00:00:00 UTC (the GPS epoch) on TAI, targeting GPS.
    pub fn gps_epoch() -> (r: Dt)
        ensures
            r.attos == -630_763_181 * ATTOS_PER_SEC,
            r.attos == crate::dt::epochs::gps_epoch_count(),
            r.scale == Scale::TAI,
            r.target == Scale::GPS,
    {
        Dt::new(-630_763_181_000_000_000_000_000_000i128, Scale::TAI, Scale::GPS)
    }

    /// 1900-01-01 00:00:00 (the NTP epoch) on TAI.
    pub fn ntp_epoch() -> (r: Dt)
        ensures
            r.attos == -3_155_716_800 * ATTOS_PER_SEC,
            r.attos == crate::dt::epochs::ntp_epoch_count(),
            r.scale == Scale::TAI,
            r.target == Scale::TAI,
    {
        Dt::new(-3_155_716_800_000_000_000_000_000_000i128, Scale::TAI, Scale::TAI)
    }

    /// 1958-01-01 00:00:00 TAI (the CCSDS epoch).
    pub fn ccsds_epoch() -> (r: Dt)
        ensures
            r.attos == -1_325_419_200 * ATTOS_PER_SEC,
            r.attos == crate::dt::epochs::ccsds_epoch_count(),
            r.scale == Scale::TAI,
            r.target == Scale::TAI,
    {
        Dt::new(-1_325_419_200_000_000_000_000_000_000i128, Scale::TAI, Scale::TAI)
    }

    /// Julian day 0 (noon, 4713 BC) on TAI.
    pub fn jd_epoch() -> (r: Dt)
        ensures
            r.attos == -211_813_488_000 * ATTOS_PER_SEC,
            r.attos == crate::dt::epochs::jd_epoch_count(),
            r.scale == Scale::TAI,
            r.target == Scale::TAI,
    {
        Dt::new(-211_813_488_000_000_000_000_000_000_000i128, Scale::TAI, Scale::TAI)
    }

    /// Modified Julian day 0 (1858-11-17 00:00) on TAI.
    pub fn mjd_epoch() -> (r: Dt)
        ensures
            r.attos == -4_453_444_800 * ATTOS_PER_SEC,
            r.attos == crate::dt::epochs::mjd_epoch_count(),
            r.scale == Scale::TAI,
            r.target == Scale::TAI,
    {
        Dt::new(-4_453_444_800_000_000_000_000_000_000i128, Scale::TAI, Scale::TAI)
    }
}

impl Default for Dt {
    fn default() -> (r: Dt)
        ensures
            r.attos == 0,
            r.scale == Scale::TAI,
            r.target == Scale::TAI,
    {
        Dt::zero()
    }
}

/// The unit constants are what their names say: a second is `10^18`
/// attoseconds, each sub-second unit a thousandth of the next, a minute 60 s,
/// an hour 60 min, a day 24 h (its half 12 h), a week 7 days; and JD 2 451 545
/// is the Julian day of 2000-01-01.
pub proof fn lemma_unit_constants()
    ensures
        ATTOS_PER_SEC == 1_000_000_000_000_000_000,
        ATTOS_PER_FS == 1_000,
        ATTOS_PER_PS == 1_000 * ATTOS_PER_FS,
        ATTOS_PER_NS == 1_000 * ATTOS_PER_PS,
        ATTOS_PER_US == 1_000 * ATTOS_PER_NS,
        ATTOS_PER_MS == 1_000 * ATTOS_PER_US,
        ATTOS_PER_SEC == 1_000 * ATTOS_PER_MS,
        ATTOS_PER_MIN == 60 * ATTOS_PER_SEC,
        ATTOS_PER_HOUR == 60 * ATTOS_PER_MIN,
        ATTOS_PER_DAY == 24 * ATTOS_PER_HOUR,
        ATTOS_PER_HALF_DAY * 2 == ATTOS_PER_DAY,
        ATTOS_PER_WEEK == 7 * ATTOS_PER_DAY,
        JD_2000 == crate::dt::gregorian::jd_of(2000, 1, 1),
{
}

} // verus!
