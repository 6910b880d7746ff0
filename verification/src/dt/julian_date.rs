//! Julian and modified Julian day numbers of a `Dt`'s raw attosecond count
//! (no time-scale conversion), the count being taken from 2000-01-01 noon.
use vstd::prelude::*;
use crate::arith::{tdiv, trem, clamp128, sat_add, sat_sub, sat_mul, div_trunc, rem_trunc, div_floor, rem_floor};
use crate::dt::scale_conv::{int_scale, tai_attos};
use crate::scale::Scale;
use crate::dt::{Dt, ATTOS_PER_DAY, ATTOS_PER_HALF_DAY, JD_2000};

verus! {

/// Days from MJD 0 to JD 2000-01-01 (noon-based), less the half day the MJD
/// fraction starts at: `JD_2000 - 2_400_001`.
pub open spec fn mjd_day_offset() -> int {
    JD_2000 - 2_400_001
}

impl Dt {
    /// The Julian Date split into whole days and the attoseconds left over, both
    /// toward zero: the remainder takes the sign of the Julian Date itself.
    pub fn to_jd_raw(&self) -> (r: (i128, i128))
        ensures
            r.0 == tdiv(jd_attos(self.attos as int), ATTOS_PER_DAY as int),
            r.1 == trem(jd_attos(self.attos as int), ATTOS_PER_DAY as int),
    {
        let days = div_trunc(self.attos, ATTOS_PER_DAY);
        let rem = rem_trunc(self.attos, ATTOS_PER_DAY);
        proof { lemma_day_quot_bounds(self.attos); }
        let jd = JD_2000 + days;
        let ghost d = ATTOS_PER_DAY as int;
        let ghost x = jd_attos(self.attos as int);
        proof {
            assert(x == jd * d + rem) by (nonlinear_arith)
                requires x == JD_2000 * d + self.attos, self.attos == days * d + rem, jd == JD_2000 + days;
        }
        if jd > 0 && rem < 0 {
            proof {
                assert(x == (jd - 1) * d + (rem + d)) by (nonlinear_arith) requires x == jd * d + rem;
                assert(x >= 0) by (nonlinear_arith) requires x == (jd - 1) * d + (rem + d), jd >= 1, d > 0, rem + d > 0;
                lemma_tdiv_converse(x, d, jd - 1, rem + d);
            }
            (jd - 1, rem + ATTOS_PER_DAY)
        } else if jd < 0 && rem > 0 {
            proof {
                assert(x == (jd + 1) * d + (rem - d)) by (nonlinear_arith) requires x == jd * d + rem;
                assert(x < 0) by (nonlinear_arith) requires x == (jd + 1) * d + (rem - d), jd <= -1, d > 0, rem - d < 0;
                lemma_tdiv_converse(x, d, jd + 1, rem - d);
            }
            (jd + 1, rem - ATTOS_PER_DAY)
        } else {
            proof {
                if jd > 0 {
                    assert(x >= 0) by (nonlinear_arith) requires x == jd * d + rem, jd >= 1, d > 0, rem >= 0;
                } else if jd < 0 {
                    assert(x < 0) by (nonlinear_arith) requires x == jd * d + rem, jd <= -1, d > 0, rem <= 0, rem > -d;
                } else {
                    assert(x == rem) by (nonlinear_arith) requires x == jd * d + rem, jd == 0;
                }
                lemma_tdiv_converse(x, d, jd as int, rem as int);
            }
            (jd, rem)
        }
    }

    /// Julian day number (floored) and the attoseconds into that day, in `[0, 1 day)`.
    pub fn to_jd_floor_raw(&self) -> (r: (i128, u128))
        ensures
            r.0 == JD_2000 + (self.attos as int) / (ATTOS_PER_DAY as int),
            r.1 == (self.attos as int) % (ATTOS_PER_DAY as int),
    {
        let days = div_floor(self.attos, ATTOS_PER_DAY);
        let rem = rem_floor(self.attos, ATTOS_PER_DAY);
        proof { lemma_day_quot_bounds(self.attos); }
        (sat_add(JD_2000, days), rem as u128)
    }

    /// Modified Julian day number and the attoseconds into that day, in `[0, 1 day)`:
    /// `days * DAY + attos` is the count shifted to start at MJD 0.
    pub fn to_mjd_raw(&self) -> (r: (i128, i128))
        ensures
            0 <= r.1 < ATTOS_PER_DAY,
            r.0 * ATTOS_PER_DAY + r.1 == self.attos + mjd_day_offset() * ATTOS_PER_DAY + ATTOS_PER_HALF_DAY,
    {
        let (jd_days, frac_attos) = self.to_jd_raw();
        proof {
            lemma_day_quot_bounds(self.attos);
            vstd::arithmetic::div_mod::lemma_fundamental_div_mod(self.attos as int, ATTOS_PER_DAY as int);
        }
        let mut mjd_days = sat_sub(jd_days, 2_400_001);
        let mut mjd_attos = sat_add(frac_attos, ATTOS_PER_HALF_DAY);
        if mjd_attos >= ATTOS_PER_DAY {
            mjd_days = sat_add(mjd_days, 1);
            mjd_attos = sat_sub(mjd_attos, ATTOS_PER_DAY);
        } else if mjd_attos < 0 {
            mjd_days = sat_sub(mjd_days, 1);
            mjd_attos = sat_add(mjd_attos, ATTOS_PER_DAY);
        }
        (mjd_days, mjd_attos)
    }

    /// Modified Julian day number (floored) and the attoseconds into that day, in `[0, 1 day)`.
    pub fn to_mjd_floor_raw(&self) -> (r: (i128, u128))
        ensures
            0 <= r.1 < ATTOS_PER_DAY,
            r.0 * ATTOS_PER_DAY + r.1 == self.attos + mjd_day_offset() * ATTOS_PER_DAY + ATTOS_PER_HALF_DAY,
    {
        let (jd_days, frac_attos) = self.to_jd_floor_raw();
        proof {
            lemma_day_quot_bounds(self.attos);
            vstd::arithmetic::div_mod::lemma_fundamental_div_mod(self.attos as int, ATTOS_PER_DAY as int);
        }
        let mjd_days = sat_sub(jd_days, 2_400_001);
        let mjd_attos = frac_attos + (ATTOS_PER_HALF_DAY as u128);
        if mjd_attos >= ATTOS_PER_DAY as u128 {
            (sat_add(mjd_days, 1), mjd_attos - (ATTOS_PER_DAY as u128))
        } else {
            (mjd_days, mjd_attos)
        }
    }
}

/// The Julian Date of a raw count, in attoseconds (JD 0 lies `JD_2000` days
/// before the count's zero).
pub open spec fn jd_attos(a: int) -> int {
    JD_2000 * ATTOS_PER_DAY + a
}

/// Truncating division is fixed by a quotient and a remainder that has the
/// sign of the dividend.
proof fn lemma_tdiv_converse(x: int, d: int, q: int, r: int)
    requires
        d > 0,
        x == q * d + r,
        x >= 0 ==> 0 <= r < d,
        x < 0 ==> -d < r <= 0,
    ensures
        tdiv(x, d) == q,
        trem(x, d) == r,
{
    if x >= 0 {
        vstd::arithmetic::div_mod::lemma_fundamental_div_mod_converse(x, d, q, r);
    } else {
        assert(-x == (-q) * d + (-r)) by (nonlinear_arith) requires x == q * d + r;
        vstd::arithmetic::div_mod::lemma_fundamental_div_mod_converse(-x, d, -q, -r);
    }
    assert(d * q == q * d) by (nonlinear_arith);
}

/// Day quotients of any `i128` attosecond count are far from the `i128` limits.
proof fn lemma_day_quot_bounds(a: i128)
    ensures
        -0x8000_0000_0000_0000i128 < tdiv(a as int, ATTOS_PER_DAY as int) < 0x8000_0000_0000_0000i128,
        -0x8000_0000_0000_0000i128 < (a as int) / (ATTOS_PER_DAY as int) < 0x8000_0000_0000_0000i128,
        -(ATTOS_PER_DAY as int) < trem(a as int, ATTOS_PER_DAY as int) < ATTOS_PER_DAY,
{
    let d = ATTOS_PER_DAY as int;
    let x = a as int;
    vstd::arithmetic::div_mod::lemma_fundamental_div_mod(x, d);
    assert(-0x8000_0000_0000_0000int < x / d < 0x8000_0000_0000_0000int) by (nonlinear_arith)
        requires d * (x / d) + x % d == x, 0 <= x % d < d, d == 86_400_000_000_000_000_000_000int,
            -0x8000_0000_0000_0000_0000_0000_0000_0000int <= x < 0x8000_0000_0000_0000_0000_0000_0000_0000int;
    if x >= 0 {
        assert(tdiv(x, d) == x / d);
    } else {
        vstd::arithmetic::div_mod::lemma_fundamental_div_mod(-x, d);
        assert(-0x8000_0000_0000_0000int < (-x) / d < 0x8000_0000_0000_0000int) by (nonlinear_arith)
            requires d * ((-x) / d) + (-x) % d == -x, 0 <= (-x) % d < d, d == 86_400_000_000_000_000_000_000int,
                0 < -x <= 0x8000_0000_0000_0000_0000_0000_0000_0000int;
        assert(tdiv(x, d) == -((-x) / d));
    }
}

/// A day count and an attosecond remainder in `[0, 1 day)` are fixed by
/// their total, so `to_mjd_raw` and `to_mjd_floor_raw` give the same pair.
pub proof fn lemma_day_parts_unique(d1: int, r1: int, d2: int, r2: int)
    requires
        0 <= r1 < ATTOS_PER_DAY,
        0 <= r2 < ATTOS_PER_DAY,
        d1 * ATTOS_PER_DAY + r1 == d2 * ATTOS_PER_DAY + r2,
    ensures
        d1 == d2,
        r1 == r2,
{
    let t = d1 * ATTOS_PER_DAY + r1;
    vstd::arithmetic::div_mod::lemma_fundamental_div_mod_converse(t, ATTOS_PER_DAY as int, d1, r1);
    vstd::arithmetic::div_mod::lemma_fundamental_div_mod_converse(t, ATTOS_PER_DAY as int, d2, r2);
}

/// The count, on the scale it is read on, of Julian Date `jd_days` days plus
/// `frac` attoseconds, saturating at each step.
pub open spec fn jd_count(jd_days: int, frac: int) -> int {
    clamp128(clamp128(clamp128(jd_days - JD_2000) * ATTOS_PER_DAY) + frac)
}

/// The Julian day and attoseconds that `from_mjd` hands to `from_jd` for
/// modified Julian day `mjd` plus `frac` attoseconds.
pub open spec fn mjd_as_jd(mjd: int, frac: int) -> (int, int) {
    let jd = clamp128(mjd + 2_400_001);
    let ja = clamp128(frac - ATTOS_PER_HALF_DAY);
    if ja < 0 {
        (clamp128(jd - 1), clamp128(ja + ATTOS_PER_DAY))
    } else if ja >= ATTOS_PER_DAY {
        (clamp128(jd + 1), clamp128(ja - ATTOS_PER_DAY))
    } else {
        (jd, ja)
    }
}

/// The Julian day and attoseconds that `from_mjd_floor` hands to
/// `from_jd_floor` for modified Julian day `mjd` plus `frac` attoseconds.
pub open spec fn mjd_floor_as_jd(mjd: int, frac: int) -> (int, int) {
    let jd = clamp128(mjd + 2_400_000);
    let ja = if frac + ATTOS_PER_HALF_DAY > u128::MAX { u128::MAX as int } else { frac + ATTOS_PER_HALF_DAY };
    if ja >= ATTOS_PER_DAY { (clamp128(jd + 1), ja - ATTOS_PER_DAY) } else { (jd, ja) }
}

/// `n` as an `i128`, saturating.
pub open spec fn u128_sat(n: int) -> int {
    if n > i128::MAX { i128::MAX as int } else { n }
}

impl Dt {
    /// The TAI instant of Julian Date `jd_days` plus `frac_attos` (of either
    /// sign) read on scale `on`; `target` is `on`.
    pub fn from_jd(jd_days: i128, frac_attos: i128, on: Scale) -> (r: Dt)
        requires
            int_scale(on),
        ensures
            r.attos == tai_attos(on, jd_count(jd_days as int, frac_attos as int)),
            r.scale == Scale::TAI,
            r.target == on,
    {
        let days = sat_sub(jd_days, JD_2000);
        let total = sat_add(sat_mul(days, ATTOS_PER_DAY), frac_attos);
        Dt::new(total, on, on).to_tai()
    }

    /// The TAI instant of Julian day `jd_days` plus `frac_attos` (meant to be
    /// below one day) read on scale `on`; `target` is `on`.
    pub fn from_jd_floor(jd_days: i128, frac_attos: u128, on: Scale) -> (r: Dt)
        requires
            int_scale(on),
        ensures
            r.attos == tai_attos(on, jd_count(jd_days as int, u128_sat(frac_attos as int))),
            r.scale == Scale::TAI,
            r.target == on,
    {
        Dt::from_jd(jd_days, Dt::to_i128(frac_attos), on)
    }

    /// The TAI instant of modified Julian day `mjd_days` plus `frac_attos`
    /// read on scale `on` (JD = MJD + 2 400 000.5); `target` is `on`.
    pub fn from_mjd(mjd_days: i128, frac_attos: i128, on: Scale) -> (r: Dt)
        requires
            int_scale(on),
        ensures
            ({
                let (j, a) = mjd_as_jd(mjd_days as int, frac_attos as int);
                r.attos == tai_attos(on, jd_count(j, a))
            }),
            r.scale == Scale::TAI,
            r.target == on,
    {
        let jd_days = sat_add(mjd_days, 2_400_001);
        let jd_attos = sat_sub(frac_attos, ATTOS_PER_HALF_DAY);
        if jd_attos < 0 {
            Dt::from_jd(sat_sub(jd_days, 1), sat_add(jd_attos, ATTOS_PER_DAY), on)
        } else if jd_attos >= ATTOS_PER_DAY {
            Dt::from_jd(sat_add(jd_days, 1), sat_sub(jd_attos, ATTOS_PER_DAY), on)
        } else {
            Dt::from_jd(jd_days, jd_attos, on)
        }
    }

    /// The TAI instant of modified Julian day `mjd_days` plus `frac_attos`
    /// (meant to be below one day) read on scale `on`; `target` is `on`.
    pub fn from_mjd_floor(mjd_days: i128, frac_attos: u128, on: Scale) -> (r: Dt)
        requires
            int_scale(on),
        ensures
            ({
                let (j, a) = mjd_floor_as_jd(mjd_days as int, frac_attos as int);
                r.attos == tai_attos(on, jd_count(j, u128_sat(a)))
            }),
            r.scale == Scale::TAI,
            r.target == on,
    {
        let jd_days = sat_add(mjd_days, 2_400_000);
        let jd_attos = frac_attos.saturating_add(ATTOS_PER_HALF_DAY as u128);
        if jd_attos >= ATTOS_PER_DAY as u128 {
            Dt::from_jd_floor(sat_add(jd_days, 1), jd_attos - (ATTOS_PER_DAY as u128), on)
        } else {
            Dt::from_jd_floor(jd_days, jd_attos, on)
        }
    }
}

/// A Julian Date given as whole days and a remainder of the same sign (of
/// magnitude below a day) survives `from_jd` on TAI and `to_jd`, wherever the
/// count fits an `i128`.
pub proof fn lemma_jd_roundtrip(d: int, f: int)
    requires
        -ATTOS_PER_DAY < f < ATTOS_PER_DAY,
        d > 0 ==> f >= 0,
        d < 0 ==> f <= 0,
        i128::MIN <= d - JD_2000 <= i128::MAX,
        i128::MIN <= (d - JD_2000) * ATTOS_PER_DAY <= i128::MAX,
        i128::MIN <= (d - JD_2000) * ATTOS_PER_DAY + f <= i128::MAX,
    ensures
        tdiv(jd_attos(jd_count(d, f)), ATTOS_PER_DAY as int) == d,
        trem(jd_attos(jd_count(d, f)), ATTOS_PER_DAY as int) == f,
{
    let dd = ATTOS_PER_DAY as int;
    assert(jd_count(d, f) == (d - JD_2000) * dd + f);
    let x = jd_attos(jd_count(d, f));
    assert(x == d * dd + f) by (nonlinear_arith) requires x == JD_2000 * dd + ((d - JD_2000) * dd + f);
    if d > 0 {
        assert(x >= 0) by (nonlinear_arith) requires x == d * dd + f, d >= 1, dd > 0, f >= 0;
    } else if d < 0 {
        assert(x < 0) by (nonlinear_arith) requires x == d * dd + f, d <= -1, dd > 0, f <= 0;
    }
    lemma_tdiv_converse(x, dd, d, f);
}

/// A Julian day and a remainder in `[0, 1 day)` survive `from_jd_floor` on
/// TAI and `to_jd_floor`, wherever the count fits an `i128`.
pub proof fn lemma_jd_floor_roundtrip(d: int, f: int)
    requires
        0 <= f < ATTOS_PER_DAY,
        i128::MIN <= d - JD_2000 <= i128::MAX,
        i128::MIN <= (d - JD_2000) * ATTOS_PER_DAY <= i128::MAX,
        (d - JD_2000) * ATTOS_PER_DAY + f <= i128::MAX,
    ensures
        JD_2000 + jd_count(d, u128_sat(f)) / (ATTOS_PER_DAY as int) == d,
        jd_count(d, u128_sat(f)) % (ATTOS_PER_DAY as int) == f,
{
    let dd = ATTOS_PER_DAY as int;
    assert(jd_count(d, u128_sat(f)) == (d - JD_2000) * dd + f);
    vstd::arithmetic::div_mod::lemma_fundamental_div_mod_converse((d - JD_2000) * dd + f, dd, d - JD_2000, f);
}

} // verus!
