//! Building `Delta` durations from integers: `5.sec()`, `250.ms()`, `3.days()`.
use vstd::prelude::*;
use crate::arith::{clamp64, sat_mul64};
use crate::delta::{Delta, ATTOS};

verus! {

/// Integer time-unit constructors for [`Delta`]. The integer is first taken
/// as an `i64` (wider values wrap, as `as i64` does).
pub trait TimeUnits: Copy + Sized {
    /// The integer as an `i64`.
    spec fn count64(self) -> int;

    /// `self` nanoseconds.
    fn ns(self) -> (r: Delta)
        ensures
            r.total() == self.count64() * 1_000_000_000;

    /// `self` microseconds.
    fn us(self) -> (r: Delta)
        ensures
            r.total() == self.count64() * 1_000_000_000_000;

    /// `self` milliseconds.
    fn ms(self) -> (r: Delta)
        ensures
            r.total() == self.count64() * 1_000_000_000_000_000;

    /// `self` seconds.
    fn sec(self) -> (r: Delta)
        ensures
            r.total() == self.count64() * (ATTOS as int);

    /// `self` minutes.
    fn min(self) -> (r: Delta)
        requires
            i64::MIN <= self.count64() * 60 <= i64::MAX,
        ensures
            r.total() == self.count64() * 60 * (ATTOS as int);

    /// `self` hours.
    fn hr(self) -> (r: Delta)
        requires
            i64::MIN <= self.count64() * 3600 <= i64::MAX,
        ensures
            r.total() == self.count64() * 3600 * (ATTOS as int);

    /// `self` civil days of 86 400 s (the seconds saturate at the `i64` limits).
    fn days(self) -> (r: Delta)
        ensures
            r.total() == clamp64(self.count64() * 86_400) * (ATTOS as int);

    /// `self` weeks (the seconds saturate at the `i64` limits).
    fn wk(self) -> (r: Delta)
        ensures
            r.total() == clamp64(self.count64() * 604_800) * (ATTOS as int);

    /// `self` Julian years of 365.25 days (the seconds saturate at the `i64` limits).
    fn yr(self) -> (r: Delta)
        ensures
            r.total() == clamp64(self.count64() * 31_557_600) * (ATTOS as int);
}

impl TimeUnits for i8 {
    open spec fn count64(self) -> int {
        (self as i64) as int
    }

    fn ns(self) -> (r: Delta) {
        Delta::from_ns(self as i64)
    }

    fn us(self) -> (r: Delta) {
        Delta::from_us(self as i64)
    }

    fn ms(self) -> (r: Delta) {
        Delta::from_ms(self as i64)
    }

    fn sec(self) -> (r: Delta) {
        Delta::from_sec(self as i64)
    }

    fn min(self) -> (r: Delta) {
        Delta::from_min(self as i64)
    }

    fn hr(self) -> (r: Delta) {
        Delta::from_hr(self as i64)
    }

    fn days(self) -> (r: Delta) {
        Delta::from_sec(sat_mul64(self as i64, 86_400))
    }

    fn wk(self) -> (r: Delta) {
        Delta::from_sec(sat_mul64(self as i64, 604_800))
    }

    fn yr(self) -> (r: Delta) {
        Delta::from_sec(sat_mul64(self as i64, 31_557_600))
    }
}

impl TimeUnits for i16 {
    open spec fn count64(self) -> int {
        (self as i64) as int
    }

    fn ns(self) -> (r: Delta) {
        Delta::from_ns(self as i64)
    }

    fn us(self) -> (r: Delta) {
        Delta::from_us(self as i64)
    }

    fn ms(self) -> (r: Delta) {
        Delta::from_ms(self as i64)
    }

    fn sec(self) -> (r: Delta) {
        Delta::from_sec(self as i64)
    }

    fn min(self) -> (r: Delta) {
        Delta::from_min(self as i64)
    }

    fn hr(self) -> (r: Delta) {
        Delta::from_hr(self as i64)
    }

    fn days(self) -> (r: Delta) {
        Delta::from_sec(sat_mul64(self as i64, 86_400))
    }

    fn wk(self) -> (r: Delta) {
        Delta::from_sec(sat_mul64(self as i64, 604_800))
    }

    fn yr(self) -> (r: Delta) {
        Delta::from_sec(sat_mul64(self as i64, 31_557_600))
    }
}

impl TimeUnits for i32 {
    open spec fn count64(self) -> int {
        (self as i64) as int
    }

    fn ns(self) -> (r: Delta) {
        Delta::from_ns(self as i64)
    }

    fn us(self) -> (r: Delta) {
        Delta::from_us(self as i64)
    }

    fn ms(self) -> (r: Delta) {
        Delta::from_ms(self as i64)
    }

    fn sec(self) -> (r: Delta) {
        Delta::from_sec(self as i64)
    }

    fn min(self) -> (r: Delta) {
        Delta::from_min(self as i64)
    }

    fn hr(self) -> (r: Delta) {
        Delta::from_hr(self as i64)
    }

    fn days(self) -> (r: Delta) {
        Delta::from_sec(sat_mul64(self as i64, 86_400))
    }

    fn wk(self) -> (r: Delta) {
        Delta::from_sec(sat_mul64(self as i64, 604_800))
    }

    fn yr(self) -> (r: Delta) {
        Delta::from_sec(sat_mul64(self as i64, 31_557_600))
    }
}

impl TimeUnits for i64 {
    open spec fn count64(self) -> int {
        (self as i64) as int
    }

    fn ns(self) -> (r: Delta) {
        Delta::from_ns(self as i64)
    }

    fn us(self) -> (r: Delta) {
        Delta::from_us(self as i64)
    }

    fn ms(self) -> (r: Delta) {
        Delta::from_ms(self as i64)
    }

    fn sec(self) -> (r: Delta) {
        Delta::from_sec(self as i64)
    }

    fn min(self) -> (r: Delta) {
        Delta::from_min(self as i64)
    }

    fn hr(self) -> (r: Delta) {
        Delta::from_hr(self as i64)
    }

    fn days(self) -> (r: Delta) {
        Delta::from_sec(sat_mul64(self as i64, 86_400))
    }

    fn wk(self) -> (r: Delta) {
        Delta::from_sec(sat_mul64(self as i64, 604_800))
    }

    fn yr(self) -> (r: Delta) {
        Delta::from_sec(sat_mul64(self as i64, 31_557_600))
    }
}

impl TimeUnits for i128 {
    open spec fn count64(self) -> int {
        (self as i64) as int
    }

    fn ns(self) -> (r: Delta) {
        Delta::from_ns(#[verifier::truncate] (self as i64))
    }

    fn us(self) -> (r: Delta) {
        Delta::from_us(#[verifier::truncate] (self as i64))
    }

    fn ms(self) -> (r: Delta) {
        Delta::from_ms(#[verifier::truncate] (self as i64))
    }

    fn sec(self) -> (r: Delta) {
        Delta::from_sec(#[verifier::truncate] (self as i64))
    }

    fn min(self) -> (r: Delta) {
        Delta::from_min(#[verifier::truncate] (self as i64))
    }

    fn hr(self) -> (r: Delta) {
        Delta::from_hr(#[verifier::truncate] (self as i64))
    }

    fn days(self) -> (r: Delta) {
        Delta::from_sec(sat_mul64(#[verifier::truncate] (self as i64), 86_400))
    }

    fn wk(self) -> (r: Delta) {
        Delta::from_sec(sat_mul64(#[verifier::truncate] (self as i64), 604_800))
    }

    fn yr(self) -> (r: Delta) {
        Delta::from_sec(sat_mul64(#[verifier::truncate] (self as i64), 31_557_600))
    }
}

impl TimeUnits for u8 {
    open spec fn count64(self) -> int {
        (self as i64) as int
    }

    fn ns(self) -> (r: Delta) {
        Delta::from_ns(self as i64)
    }

    fn us(self) -> (r: Delta) {
        Delta::from_us(self as i64)
    }

    fn ms(self) -> (r: Delta) {
        Delta::from_ms(self as i64)
    }

    fn sec(self) -> (r: Delta) {
        Delta::from_sec(self as i64)
    }

    fn min(self) -> (r: Delta) {
        Delta::from_min(self as i64)
    }

    fn hr(self) -> (r: Delta) {
        Delta::from_hr(self as i64)
    }

    fn days(self) -> (r: Delta) {
        Delta::from_sec(sat_mul64(self as i64, 86_400))
    }

    fn wk(self) -> (r: Delta) {
        Delta::from_sec(sat_mul64(self as i64, 604_800))
    }

    fn yr(self) -> (r: Delta) {
        Delta::from_sec(sat_mul64(self as i64, 31_557_600))
    }
}

impl TimeUnits for u16 {
    open spec fn count64(self) -> int {
        (self as i64) as int
    }

    fn ns(self) -> (r: Delta) {
        Delta::from_ns(self as i64)
    }

    fn us(self) -> (r: Delta) {
        Delta::from_us(self as i64)
    }

    fn ms(self) -> (r: Delta) {
        Delta::from_ms(self as i64)
    }

    fn sec(self) -> (r: Delta) {
        Delta::from_sec(self as i64)
    }

    fn min(self) -> (r: Delta) {
        Delta::from_min(self as i64)
    }

    fn hr(self) -> (r: Delta) {
        Delta::from_hr(self as i64)
    }

    fn days(self) -> (r: Delta) {
        Delta::from_sec(sat_mul64(self as i64, 86_400))
    }

    fn wk(self) -> (r: Delta) {
        Delta::from_sec(sat_mul64(self as i64, 604_800))
    }

    fn yr(self) -> (r: Delta) {
        Delta::from_sec(sat_mul64(self as i64, 31_557_600))
    }
}

impl TimeUnits for u32 {
    open spec fn count64(self) -> int {
        (self as i64) as int
    }

    fn ns(self) -> (r: Delta) {
        Delta::from_ns(self as i64)
    }

    fn us(self) -> (r: Delta) {
        Delta::from_us(self as i64)
    }

    fn ms(self) -> (r: Delta) {
        Delta::from_ms(self as i64)
    }

    fn sec(self) -> (r: Delta) {
        Delta::from_sec(self as i64)
    }

    fn min(self) -> (r: Delta) {
        Delta::from_min(self as i64)
    }

    fn hr(self) -> (r: Delta) {
        Delta::from_hr(self as i64)
    }

    fn days(self) -> (r: Delta) {
        Delta::from_sec(sat_mul64(self as i64, 86_400))
    }

    fn wk(self) -> (r: Delta) {
        Delta::from_sec(sat_mul64(self as i64, 604_800))
    }

    fn yr(self) -> (r: Delta) {
        Delta::from_sec(sat_mul64(self as i64, 31_557_600))
    }
}

impl TimeUnits for u64 {
    open spec fn count64(self) -> int {
        (self as i64) as int
    }

    fn ns(self) -> (r: Delta) {
        Delta::from_ns(#[verifier::truncate] (self as i64))
    }

    fn us(self) -> (r: Delta) {
        Delta::from_us(#[verifier::truncate] (self as i64))
    }

    fn ms(self) -> (r: Delta) {
        Delta::from_ms(#[verifier::truncate] (self as i64))
    }

    fn sec(self) -> (r: Delta) {
        Delta::from_sec(#[verifier::truncate] (self as i64))
    }

    fn min(self) -> (r: Delta) {
        Delta::from_min(#[verifier::truncate] (self as i64))
    }

    fn hr(self) -> (r: Delta) {
        Delta::from_hr(#[verifier::truncate] (self as i64))
    }

    fn days(self) -> (r: Delta) {
        Delta::from_sec(sat_mul64(#[verifier::truncate] (self as i64), 86_400))
    }

    fn wk(self) -> (r: Delta) {
        Delta::from_sec(sat_mul64(#[verifier::truncate] (self as i64), 604_800))
    }

    fn yr(self) -> (r: Delta) {
        Delta::from_sec(sat_mul64(#[verifier::truncate] (self as i64), 31_557_600))
    }
}

impl TimeUnits for u128 {
    open spec fn count64(self) -> int {
        (self as i64) as int
    }

    fn ns(self) -> (r: Delta) {
        Delta::from_ns(#[verifier::truncate] (self as i64))
    }

    fn us(self) -> (r: Delta) {
        Delta::from_us(#[verifier::truncate] (self as i64))
    }

    fn ms(self) -> (r: Delta) {
        Delta::from_ms(#[verifier::truncate] (self as i64))
    }

    fn sec(self) -> (r: Delta) {
        Delta::from_sec(#[verifier::truncate] (self as i64))
    }

    fn min(self) -> (r: Delta) {
        Delta::from_min(#[verifier::truncate] (self as i64))
    }

    fn hr(self) -> (r: Delta) {
        Delta::from_hr(#[verifier::truncate] (self as i64))
    }

    fn days(self) -> (r: Delta) {
        Delta::from_sec(sat_mul64(#[verifier::truncate] (self as i64), 86_400))
    }

    fn wk(self) -> (r: Delta) {
        Delta::from_sec(sat_mul64(#[verifier::truncate] (self as i64), 604_800))
    }

    fn yr(self) -> (r: Delta) {
        Delta::from_sec(sat_mul64(#[verifier::truncate] (self as i64), 31_557_600))
    }
}

} // verus!
