//! Conversion between TAI and the time scales that differ from it by a
//! fixed offset or by the leap-second table: TT, UTC, GPS, QZSS, Galileo
//! System Time and BeiDou Time. `UT` and `Custom` are taken as TAI. Before
//! 1972 UTC is taken to equal TAI (the offsets of that era are not modelled).
use vstd::prelude::*;
use crate::arith::{clamp128, sat_add, sat_sub, tdiv, trem};
use crate::dt::julian_date::{jd_attos, mjd_day_offset};
use crate::dt::gregorian::jd_of;
use crate::dt::civil::utc_count_of;
use crate::dt::relativistic::{
    tcg_to_tt, tt_to_tcg, tcb_to_tdb, tdb_to_tcb, tcg_to_tt_spec, tt_to_tcg_spec, tcb_to_tdb_spec, tdb_to_tcb_spec,
};
use crate::dt::{Dt, ATTOS_PER_SEC, ATTOS_PER_DAY, ATTOS_PER_HALF_DAY, JD_2000};
use crate::scale::Scale;

verus! {

/// TT − TAI: 32.184 s in attoseconds.
pub const TT_TAI_OFFSET_ATTOS: i128 = 32_184_000_000_000_000_000;
/// TAI − GPS (also QZSS and Galileo System Time): 19 s in attoseconds.
pub const GPS_OFFSET_ATTOS: i128 = 19_000_000_000_000_000_000;
/// TAI − BeiDou Time: 33 s in attoseconds.
pub const BDT_OFFSET_ATTOS: i128 = 33_000_000_000_000_000_000;
/// The number of steps in the leap-second table.
pub const LEAP_STEPS: usize = 28;

/// The modified Julian date of the UTC day from whose start TAI − UTC is
/// `10 + k` seconds, for `k` in `0..LEAP_STEPS` (1972-01-01 to 2017-01-01).
pub open spec fn leap_mjd(k: int) -> int {
    if k == 0 {
        41317
    } else if k == 1 {
        41499
    } else if k == 2 {
        41683
    } else if k == 3 {
        42048
    } else if k == 4 {
        42413
    } else if k == 5 {
        42778
    } else if k == 6 {
        43144
    } else if k == 7 {
        43509
    } else if k == 8 {
        43874
    } else if k == 9 {
        44239
    } else if k == 10 {
        44786
    } else if k == 11 {
        45151
    } else if k == 12 {
        45516
    } else if k == 13 {
        46247
    } else if k == 14 {
        47161
    } else if k == 15 {
        47892
    } else if k == 16 {
        48257
    } else if k == 17 {
        48804
    } else if k == 18 {
        49169
    } else if k == 19 {
        49534
    } else if k == 20 {
        50083
    } else if k == 21 {
        50630
    } else if k == 22 {
        51179
    } else if k == 23 {
        53736
    } else if k == 24 {
        54832
    } else if k == 25 {
        56109
    } else if k == 26 {
        57204
    } else {
        57754
    }
}

/// The start of step `k` as a UTC count: attoseconds from 2000-01-01 12:00.
pub open spec fn utc_step_attos(k: int) -> int {
    ((leap_mjd(k) - 51544) * 86400 - 43200) * ATTOS_PER_SEC
}

/// TAI − UTC in seconds just before step `k`: 0 before 1972, `9 + k` after.
pub open spec fn prev_offset(k: int) -> int {
    if k == 0 { 0 } else { 9 + k }
}

/// The TAI count from which step `k` applies when converting TAI to UTC:
/// the step's start on TAI less the seconds it inserts, so that inserted
/// seconds read as the last seconds of the old UTC day.
pub open spec fn tai_step_attos(k: int) -> int {
    utc_step_attos(k) + prev_offset(k) * ATTOS_PER_SEC
}

/// TAI − UTC in seconds at UTC count `u`, looking at the first `k` steps:
/// `10 + j` for the last step `j` that has begun, and 0 before 1972.
pub open spec fn utc_offset_from(u: int, k: nat) -> int
    decreases k,
{
    if k == 0 {
        0
    } else if u >= utc_step_attos(k - 1) {
        10 + (k - 1)
    } else {
        utc_offset_from(u, (k - 1) as nat)
    }
}

/// TAI − UTC in seconds at TAI count `t`, looking at the first `k` steps.
pub open spec fn tai_offset_from(t: int, k: nat) -> int
    decreases k,
{
    if k == 0 {
        0
    } else if t >= tai_step_attos(k - 1) {
        10 + (k - 1)
    } else {
        tai_offset_from(t, (k - 1) as nat)
    }
}

/// TAI − UTC in seconds at UTC count `u`.
pub open spec fn utc_leap_offset(u: int) -> int {
    utc_offset_from(u, LEAP_STEPS as nat)
}

/// TAI − UTC in seconds at TAI count `t`.
pub open spec fn tai_leap_offset(t: int) -> int {
    tai_offset_from(t, LEAP_STEPS as nat)
}

/// The scales this module converts.
pub open spec fn int_scale(s: Scale) -> bool {
    match s {
        Scale::TAI | Scale::TT | Scale::UTC | Scale::UTCSpice | Scale::GPS | Scale::QZSS | Scale::GST
            | Scale::BDT | Scale::TCG | Scale::UT | Scale::Custom => true,
        _ => false,
    }
}

/// The scales whose conversion takes a correction computed outside this
/// library (a floating-point series or a historical table): TDB, ET, TCB,
/// LTC, TCL and UTC as SOFA handles it before 1972.
pub open spec fn outside_scale(s: Scale) -> bool {
    !int_scale(s)
}

/// The TAI count of count `a` on scale `s`, saturating.
pub open spec fn tai_attos(s: Scale, a: int) -> int {
    match s {
        Scale::TT => clamp128(a - TT_TAI_OFFSET_ATTOS),
        Scale::UTC => clamp128(a + utc_leap_offset(a) * ATTOS_PER_SEC),
        Scale::UTCSpice => if a < utc_step_attos(0) {
            clamp128(a + 9 * ATTOS_PER_SEC)
        } else {
            clamp128(a + utc_leap_offset(a) * ATTOS_PER_SEC)
        },
        Scale::GPS | Scale::QZSS | Scale::GST => clamp128(a + GPS_OFFSET_ATTOS),
        Scale::BDT => clamp128(a + BDT_OFFSET_ATTOS),
        Scale::TCG => clamp128(tcg_to_tt_spec(a) - TT_TAI_OFFSET_ATTOS),
        _ => a,
    }
}

/// The count on scale `s` of TAI count `t`, saturating.
pub open spec fn from_tai_attos(s: Scale, t: int) -> int {
    match s {
        Scale::TT => clamp128(t + TT_TAI_OFFSET_ATTOS),
        Scale::UTC => clamp128(t - tai_leap_offset(t) * ATTOS_PER_SEC),
        Scale::UTCSpice => if t < utc_step_attos(0) + 10 * ATTOS_PER_SEC {
            clamp128(t - 9 * ATTOS_PER_SEC)
        } else {
            clamp128(t - tai_leap_offset(t) * ATTOS_PER_SEC)
        },
        Scale::GPS | Scale::QZSS | Scale::GST => clamp128(t - GPS_OFFSET_ATTOS),
        Scale::BDT => clamp128(t - BDT_OFFSET_ATTOS),
        Scale::TCG => tt_to_tcg_spec(clamp128(t + TT_TAI_OFFSET_ATTOS)),
        _ => t,
    }
}

/// The correction handed in, zero where none is.
pub open spec fn corr_or_zero(c: Option<i128>) -> int {
    match c {
        Some(v) => v as int,
        None => 0,
    }
}

/// The TAI count of count `a` on scale `s`, with `c` the correction computed
/// outside for the scales that need one (see `Dt::to_tai_with`), saturating.
pub open spec fn tai_attos_with(s: Scale, a: int, c: Option<i128>) -> int {
    let k = corr_or_zero(c);
    match s {
        Scale::TDB | Scale::ET | Scale::LTC => clamp128(clamp128(a - k) - TT_TAI_OFFSET_ATTOS),
        Scale::TCB => clamp128(clamp128(tcb_to_tdb_spec(a) - k) - TT_TAI_OFFSET_ATTOS),
        Scale::TCL => clamp128(a - k),
        Scale::UTCSofa => match c {
            Some(v) => clamp128(a + v),
            None => tai_attos(Scale::UTC, a),
        },
        _ => tai_attos(s, a),
    }
}

/// The count on scale `s` of TAI count `t`, with `c` the correction computed
/// outside for the scales that need one (see `Dt::convert_with`), saturating.
pub open spec fn from_tai_attos_with(s: Scale, t: int, c: Option<i128>) -> int {
    let k = corr_or_zero(c);
    match s {
        Scale::TDB | Scale::ET | Scale::LTC => clamp128(clamp128(t + TT_TAI_OFFSET_ATTOS) + k),
        Scale::TCB => tdb_to_tcb_spec(clamp128(clamp128(t + TT_TAI_OFFSET_ATTOS) + k)),
        Scale::TCL => clamp128(t + k),
        Scale::UTCSofa => match c {
            Some(v) => clamp128(t - v),
            None => from_tai_attos(Scale::UTC, t),
        },
        _ => from_tai_attos(s, t),
    }
}

/// The count that `Dt::to_with` gives for count `a` taken from scale `from`
/// to `to`, with the corrections `cf` and `ct` of the two scales.
pub open spec fn to_attos_with(from: Scale, to: Scale, a: int, cf: Option<i128>, ct: Option<i128>) -> int {
    if from == to {
        a
    } else if to == Scale::TAI || to == Scale::UT || to == Scale::Custom {
        tai_attos_with(from, a, cf)
    } else {
        from_tai_attos_with(to, tai_attos_with(from, a, cf), ct)
    }
}

/// The count that `Dt::to` gives for count `a` taken from scale `from` to `to`.
pub open spec fn to_attos_spec(from: Scale, to: Scale, a: int) -> int {
    if from == to {
        a
    } else if to == Scale::TAI || to == Scale::UT || to == Scale::Custom {
        tai_attos(from, a)
    } else {
        from_tai_attos(to, tai_attos(from, a))
    }
}

/// The scale that `Dt::to` gives when taking a value from `from` to `to`.
pub open spec fn to_scale_spec(from: Scale, to: Scale) -> Scale {
    if from == to {
        to
    } else if to == Scale::UT || to == Scale::Custom {
        Scale::TAI
    } else {
        to
    }
}

/// Whether TAI count `t` lies in the leap second inserted by one of the
/// steps `1..n` (the last second of a UTC day of 86 401 seconds).
pub open spec fn leap_second_from(t: int, n: nat) -> bool
    decreases n,
{
    if n <= 1 {
        false
    } else {
        (tai_step_attos(n - 1) <= t < tai_step_attos(n - 1) + ATTOS_PER_SEC) || leap_second_from(t, (n - 1) as nat)
    }
}

/// Whether TAI count `t` lies in an inserted leap second.
pub open spec fn leap_second_at(t: int) -> bool {
    leap_second_from(t, LEAP_STEPS as nat)
}

/// The start of leap-second step `k` as a UTC count.
fn leap_step_attos(k: usize) -> (r: i128)
    requires
        k < LEAP_STEPS,
    ensures
        r == utc_step_attos(k as int),
{
    let mjd: i128 =
        if k == 0 {
            41317
        } else if k == 1 {
            41499
        } else if k == 2 {
            41683
        } else if k == 3 {
            42048
        } else if k == 4 {
            42413
        } else if k == 5 {
            42778
        } else if k == 6 {
            43144
        } else if k == 7 {
            43509
        } else if k == 8 {
            43874
        } else if k == 9 {
            44239
        } else if k == 10 {
            44786
        } else if k == 11 {
            45151
        } else if k == 12 {
            45516
        } else if k == 13 {
            46247
        } else if k == 14 {
            47161
        } else if k == 15 {
            47892
        } else if k == 16 {
            48257
        } else if k == 17 {
            48804
        } else if k == 18 {
            49169
        } else if k == 19 {
            49534
        } else if k == 20 {
            50083
        } else if k == 21 {
            50630
        } else if k == 22 {
            51179
        } else if k == 23 {
            53736
        } else if k == 24 {
            54832
        } else if k == 25 {
            56109
        } else if k == 26 {
            57204
        } else {
            57754
        };
    ((mjd - 51544) * 86400 - 43200) * ATTOS_PER_SEC
}

/// TAI − UTC in seconds at UTC count `u`.
pub fn utc_offset(u: i128) -> (r: i128)
    ensures
        r == utc_leap_offset(u as int),
        0 <= r <= 37,
{
    let mut k: usize = LEAP_STEPS;
    while k > 0
        invariant
            k <= LEAP_STEPS,
            utc_offset_from(u as int, k as nat) == utc_leap_offset(u as int),
        decreases k,
    {
        if u >= leap_step_attos(k - 1) {
            return 10 + (k - 1) as i128;
        }
        k -= 1;
    }
    0
}

/// Whether TAI count `t` lies in an inserted leap second.
pub fn is_leap_second(t: i128) -> (r: bool)
    ensures
        r == leap_second_at(t as int),
{
    let mut k: usize = LEAP_STEPS;
    while k > 1
        invariant
            1 <= k <= LEAP_STEPS,
            leap_second_at(t as int) == leap_second_from(t as int, k as nat),
        decreases k,
    {
        let step = leap_step_attos(k - 1) + (9 + (k - 1) as i128) * ATTOS_PER_SEC;
        if step <= t && t < step + ATTOS_PER_SEC {
            return true;
        }
        k -= 1;
    }
    false
}

/// TAI − UTC in seconds at TAI count `t`.
pub fn tai_offset(t: i128) -> (r: i128)
    ensures
        r == tai_leap_offset(t as int),
        0 <= r <= 37,
{
    let mut k: usize = LEAP_STEPS;
    while k > 0
        invariant
            k <= LEAP_STEPS,
            tai_offset_from(t as int, k as nat) == tai_leap_offset(t as int),
        decreases k,
    {
        let prev: i128 = if k == 1 { 0 } else { 9 + (k - 1) as i128 };
        let step = leap_step_attos(k - 1) + prev * ATTOS_PER_SEC;
        if t >= step {
            return 10 + (k - 1) as i128;
        }
        k -= 1;
    }
    0
}

impl Dt {
    /// This instant on TAI: the count converted from `scale` (saturating),
    /// `target` kept.
    pub fn to_tai(&self) -> (r: Dt)
        requires
            int_scale(self.scale),
        ensures
            r.scale == Scale::TAI,
            r.target == self.target,
            r.attos == tai_attos(self.scale, self.attos as int),
    {
        let a = self.attos;
        let t = match self.scale {
            Scale::TT => sat_sub(a, TT_TAI_OFFSET_ATTOS),
            Scale::UTC => sat_add(a, utc_offset(a) * ATTOS_PER_SEC),
            Scale::UTCSpice => if a < leap_step_attos(0) {
                sat_add(a, 9 * ATTOS_PER_SEC)
            } else {
                sat_add(a, utc_offset(a) * ATTOS_PER_SEC)
            },
            Scale::GPS | Scale::QZSS | Scale::GST => sat_add(a, GPS_OFFSET_ATTOS),
            Scale::BDT => sat_add(a, BDT_OFFSET_ATTOS),
            Scale::TCG => sat_sub(tcg_to_tt(a), TT_TAI_OFFSET_ATTOS),
            _ => a,
        };
        Dt::new(t, Scale::TAI, self.target)
    }

    /// Converts a TAI count to scale `new` without first converting to TAI:
    /// `new == TAI` gives `to_tai()`, `UT` and `Custom` leave the value as it
    /// is, and any other scale relabels the converted count (saturating).
    pub fn convert(&self, new: Scale) -> (r: Dt)
        requires
            int_scale(new),
            new == Scale::TAI ==> int_scale(self.scale),
        ensures
            new == Scale::TAI ==> r.attos == tai_attos(self.scale, self.attos as int) && r.scale == Scale::TAI,
            (new == Scale::UT || new == Scale::Custom) ==> r == *self,
            new != Scale::TAI && new != Scale::UT && new != Scale::Custom
                ==> r.attos == from_tai_attos(new, self.attos as int) && r.scale == new,
            r.target == self.target,
    {
        let a = self.attos;
        match new {
            Scale::TAI => self.to_tai(),
            Scale::UTC => Dt::new(sat_sub(a, tai_offset(a) * ATTOS_PER_SEC), new, self.target),
            Scale::UTCSpice => {
                let t = if a < leap_step_attos(0) + 10 * ATTOS_PER_SEC {
                    sat_sub(a, 9 * ATTOS_PER_SEC)
                } else {
                    sat_sub(a, tai_offset(a) * ATTOS_PER_SEC)
                };
                Dt::new(t, new, self.target)
            },
            Scale::TCG => Dt::new(tt_to_tcg(sat_add(a, TT_TAI_OFFSET_ATTOS)), new, self.target),
            Scale::TT => Dt::new(sat_add(a, TT_TAI_OFFSET_ATTOS), new, self.target),
            Scale::GPS | Scale::QZSS | Scale::GST => Dt::new(sat_sub(a, GPS_OFFSET_ATTOS), new, self.target),
            Scale::BDT => Dt::new(sat_sub(a, BDT_OFFSET_ATTOS), new, self.target),
            _ => *self,
        }
    }

    /// This instant on scale `new`, going through TAI: the count is taken to
    /// TAI from `scale`, then from TAI to `new`; `target` is kept. A value
    /// already on `new` is returned as it is.
    pub fn to(&self, new: Scale) -> (r: Dt)
        requires
            int_scale(self.scale),
            int_scale(new),
        ensures
            r.target == self.target,
            self.scale == new ==> r == *self,
            self.scale != new && (new == Scale::UT || new == Scale::Custom)
                ==> r.attos == tai_attos(self.scale, self.attos as int) && r.scale == Scale::TAI,
            self.scale != new && new == Scale::TAI
                ==> r.attos == tai_attos(self.scale, self.attos as int) && r.scale == Scale::TAI,
            self.scale != new && new != Scale::TAI && new != Scale::UT && new != Scale::Custom
                ==> r.attos == from_tai_attos(new, tai_attos(self.scale, self.attos as int)) && r.scale == new,
            r.attos == to_attos_spec(self.scale, new, self.attos as int),
            r.scale == to_scale_spec(self.scale, new),
    {
        if self.scale == Scale::TAI {
            self.convert(new)
        } else if self.scale != new {
            self.to_tai().convert(new)
        } else {
            *self
        }
    }
}

/// Consecutive steps start more than a minute apart, on UTC and on TAI.
proof fn lemma_step_gap(i: int)
    requires
        0 <= i < LEAP_STEPS - 1,
    ensures
        utc_step_attos(i) + 60 * ATTOS_PER_SEC < utc_step_attos(i + 1),
        tai_step_attos(i) < tai_step_attos(i + 1),
{
}

/// Steps start in increasing order.
proof fn lemma_steps_monotone(a: int, b: int)
    requires
        0 <= a <= b < LEAP_STEPS,
    ensures
        utc_step_attos(a) <= utc_step_attos(b),
        tai_step_attos(a) <= tai_step_attos(b),
    decreases b - a,
{
    if a < b {
        lemma_steps_monotone(a, b - 1);
        lemma_step_gap(b - 1);
    }
}

/// The last of the first `n` steps that has begun at UTC count `u`, or -1.
proof fn lemma_utc_index(u: int, n: nat) -> (j: int)
    requires
        n <= LEAP_STEPS,
    ensures
        -1 <= j < n,
        j == -1 ==> utc_offset_from(u, n) == 0 && (n > 0 ==> u < utc_step_attos(0)),
        j >= 0 ==> utc_offset_from(u, n) == 10 + j && utc_step_attos(j) <= u
            && (j + 1 < n ==> u < utc_step_attos(j + 1)),
    decreases n,
{
    if n == 0 {
        -1
    } else if u >= utc_step_attos(n - 1) {
        n - 1
    } else {
        lemma_utc_index(u, (n - 1) as nat)
    }
}

/// The last of the first `n` steps that has begun at TAI count `t`, or -1.
proof fn lemma_tai_index(t: int, n: nat) -> (j: int)
    requires
        n <= LEAP_STEPS,
    ensures
        -1 <= j < n,
        j == -1 ==> tai_offset_from(t, n) == 0 && (n > 0 ==> t < tai_step_attos(0)),
        j >= 0 ==> tai_offset_from(t, n) == 10 + j && tai_step_attos(j) <= t
            && (j + 1 < n ==> t < tai_step_attos(j + 1)),
    decreases n,
{
    if n == 0 {
        -1
    } else if t >= tai_step_attos(n - 1) {
        n - 1
    } else {
        lemma_tai_index(t, (n - 1) as nat)
    }
}

/// The UTC offset is fixed by the step interval the count lies in.
proof fn lemma_utc_offset_at(u: int, n: nat, j: int)
    requires
        n <= LEAP_STEPS,
        -1 <= j < n,
        j >= 0 ==> utc_step_attos(j) <= u,
        j + 1 < n ==> u < utc_step_attos(j + 1),
    ensures
        utc_offset_from(u, n) == (if j == -1 { 0 } else { 10 + j }),
    decreases n,
{
    if n > 0 && j < n - 1 {
        lemma_steps_monotone(j + 1, n - 1);
        lemma_utc_offset_at(u, (n - 1) as nat, j);
    }
}

/// The TAI offset is fixed by the step interval the count lies in.
proof fn lemma_tai_offset_at(t: int, n: nat, j: int)
    requires
        n <= LEAP_STEPS,
        -1 <= j < n,
        j >= 0 ==> tai_step_attos(j) <= t,
        j + 1 < n ==> t < tai_step_attos(j + 1),
    ensures
        tai_offset_from(t, n) == (if j == -1 { 0 } else { 10 + j }),
    decreases n,
{
    if n > 0 && j < n - 1 {
        lemma_steps_monotone(j + 1, n - 1);
        lemma_tai_offset_at(t, (n - 1) as nat, j);
    }
}

/// Both offsets lie in `0..=37` seconds.
pub proof fn lemma_offset_bounds(t: int)
    ensures
        0 <= utc_leap_offset(t) <= 37,
        0 <= tai_leap_offset(t) <= 37,
{
    lemma_utc_index(t, LEAP_STEPS as nat);
    lemma_tai_index(t, LEAP_STEPS as nat);
}

/// The leap-second table of IERS Bulletin C: the year and month (January
/// or July) from whose first day, 00:00:00 UTC, TAI - UTC is `10 + k` s.
pub open spec fn bulletin_c(k: int) -> (int, int) {
    if k == 0 {
        (1972, 1)
    } else if k == 1 {
        (1972, 7)
    } else if k == 2 {
        (1973, 1)
    } else if k == 3 {
        (1974, 1)
    } else if k == 4 {
        (1975, 1)
    } else if k == 5 {
        (1976, 1)
    } else if k == 6 {
        (1977, 1)
    } else if k == 7 {
        (1978, 1)
    } else if k == 8 {
        (1979, 1)
    } else if k == 9 {
        (1980, 1)
    } else if k == 10 {
        (1981, 7)
    } else if k == 11 {
        (1982, 7)
    } else if k == 12 {
        (1983, 7)
    } else if k == 13 {
        (1985, 7)
    } else if k == 14 {
        (1988, 1)
    } else if k == 15 {
        (1990, 1)
    } else if k == 16 {
        (1991, 1)
    } else if k == 17 {
        (1992, 7)
    } else if k == 18 {
        (1993, 7)
    } else if k == 19 {
        (1994, 7)
    } else if k == 20 {
        (1996, 1)
    } else if k == 21 {
        (1997, 7)
    } else if k == 22 {
        (1999, 1)
    } else if k == 23 {
        (2006, 1)
    } else if k == 24 {
        (2009, 1)
    } else if k == 25 {
        (2012, 7)
    } else if k == 26 {
        (2015, 7)
    } else {
        (2017, 1)
    }
}

/// The steps of the table fall on the first days of the months of Bulletin C.
pub proof fn lemma_leap_table_is_bulletin_c(k: int)
    requires
        0 <= k < LEAP_STEPS,
    ensures
        leap_mjd(k) == jd_of(bulletin_c(k).0, bulletin_c(k).1, 1) - 2_400_001,
        bulletin_c(k).1 == 1 || bulletin_c(k).1 == 7,
        utc_step_attos(k) == utc_count_of(bulletin_c(k).0, bulletin_c(k).1, 1, 0, 0, 0),
{
    if k == 0 {
        assert(jd_of(1972, 1, 1) - 2_400_001 == leap_mjd(0));
    } else if k == 1 {
        assert(jd_of(1972, 7, 1) - 2_400_001 == leap_mjd(1));
    } else if k == 2 {
        assert(jd_of(1973, 1, 1) - 2_400_001 == leap_mjd(2));
    } else if k == 3 {
        assert(jd_of(1974, 1, 1) - 2_400_001 == leap_mjd(3));
    } else if k == 4 {
        assert(jd_of(1975, 1, 1) - 2_400_001 == leap_mjd(4));
    } else if k == 5 {
        assert(jd_of(1976, 1, 1) - 2_400_001 == leap_mjd(5));
    } else if k == 6 {
        assert(jd_of(1977, 1, 1) - 2_400_001 == leap_mjd(6));
    } else if k == 7 {
        assert(jd_of(1978, 1, 1) - 2_400_001 == leap_mjd(7));
    } else if k == 8 {
        assert(jd_of(1979, 1, 1) - 2_400_001 == leap_mjd(8));
    } else if k == 9 {
        assert(jd_of(1980, 1, 1) - 2_400_001 == leap_mjd(9));
    } else if k == 10 {
        assert(jd_of(1981, 7, 1) - 2_400_001 == leap_mjd(10));
    } else if k == 11 {
        assert(jd_of(1982, 7, 1) - 2_400_001 == leap_mjd(11));
    } else if k == 12 {
        assert(jd_of(1983, 7, 1) - 2_400_001 == leap_mjd(12));
    } else if k == 13 {
        assert(jd_of(1985, 7, 1) - 2_400_001 == leap_mjd(13));
    } else if k == 14 {
        assert(jd_of(1988, 1, 1) - 2_400_001 == leap_mjd(14));
    } else if k == 15 {
        assert(jd_of(1990, 1, 1) - 2_400_001 == leap_mjd(15));
    } else if k == 16 {
        assert(jd_of(1991, 1, 1) - 2_400_001 == leap_mjd(16));
    } else if k == 17 {
        assert(jd_of(1992, 7, 1) - 2_400_001 == leap_mjd(17));
    } else if k == 18 {
        assert(jd_of(1993, 7, 1) - 2_400_001 == leap_mjd(18));
    } else if k == 19 {
        assert(jd_of(1994, 7, 1) - 2_400_001 == leap_mjd(19));
    } else if k == 20 {
        assert(jd_of(1996, 1, 1) - 2_400_001 == leap_mjd(20));
    } else if k == 21 {
        assert(jd_of(1997, 7, 1) - 2_400_001 == leap_mjd(21));
    } else if k == 22 {
        assert(jd_of(1999, 1, 1) - 2_400_001 == leap_mjd(22));
    } else if k == 23 {
        assert(jd_of(2006, 1, 1) - 2_400_001 == leap_mjd(23));
    } else if k == 24 {
        assert(jd_of(2009, 1, 1) - 2_400_001 == leap_mjd(24));
    } else if k == 25 {
        assert(jd_of(2012, 7, 1) - 2_400_001 == leap_mjd(25));
    } else if k == 26 {
        assert(jd_of(2015, 7, 1) - 2_400_001 == leap_mjd(26));
    } else if k == 27 {
        assert(jd_of(2017, 1, 1) - 2_400_001 == leap_mjd(27));
    }
}

/// TAI - UTC at a UTC count, by the calendar: 0 before 1972-01-01, and
/// `10 + k` s from the first day of the month of the `k`-th entry of
/// Bulletin C until that of the next.
pub proof fn lemma_utc_offset_by_date(u: int, k: int)
    requires
        -1 <= k < LEAP_STEPS,
        k >= 0 ==> utc_count_of(bulletin_c(k).0, bulletin_c(k).1, 1, 0, 0, 0) <= u,
        k + 1 < LEAP_STEPS ==> u < utc_count_of(bulletin_c(k + 1).0, bulletin_c(k + 1).1, 1, 0, 0, 0),
    ensures
        utc_leap_offset(u) == (if k == -1 { 0 } else { 10 + k }),
{
    if k >= 0 {
        lemma_leap_table_is_bulletin_c(k);
    }
    if k + 1 < LEAP_STEPS {
        lemma_leap_table_is_bulletin_c(k + 1);
    }
    lemma_utc_offset_at(u, LEAP_STEPS as nat, k);
}

/// Each step after the first inserts one second: the TAI second that follows
/// 23:59:59 UTC of the last day before the `k`-th date of Bulletin C is a
/// leap second, and UTC reads every instant of it as that 23:59:59 second.
pub proof fn lemma_leap_seconds_inserted(k: int, a: int)
    requires
        1 <= k < LEAP_STEPS,
        0 <= a < ATTOS_PER_SEC,
    ensures
        ({
            let u = utc_count_of(bulletin_c(k).0, bulletin_c(k).1, 1, 0, 0, 0) - ATTOS_PER_SEC;
            let t = tai_attos(Scale::UTC, u) + ATTOS_PER_SEC + a;
            &&& leap_second_at(t)
            &&& from_tai_attos(Scale::UTC, t) == u + a
            &&& !leap_second_at(t - ATTOS_PER_SEC)
            &&& !leap_second_at(t + ATTOS_PER_SEC)
        }),
{
    lemma_leap_table_is_bulletin_c(k);
    lemma_leap_table_is_bulletin_c(k - 1);
    let u = utc_step_attos(k) - ATTOS_PER_SEC;
    lemma_step_gap(k - 1);
    lemma_utc_offset_at(u, LEAP_STEPS as nat, k - 1);
    let t = u + (9 + k) * ATTOS_PER_SEC + ATTOS_PER_SEC + a;
    assert(tai_attos(Scale::UTC, u) == u + (9 + k) * ATTOS_PER_SEC);
    assert(t == tai_step_attos(k) + a);
    lemma_leap_intro(t, LEAP_STEPS as nat, k);
    if k + 1 < LEAP_STEPS {
        lemma_step_gap(k);
    }
    lemma_tai_offset_at(t, LEAP_STEPS as nat, k);
    lemma_utc_image_not_leap(u);
    let t2 = t + ATTOS_PER_SEC;
    let u2 = utc_step_attos(k) + a;
    lemma_utc_offset_at(u2, LEAP_STEPS as nat, k);
    assert(t2 == u2 + (10 + k) * ATTOS_PER_SEC);
    lemma_utc_image_not_leap(u2);
    lemma_utc_image_not_leap(u + a);
    lemma_utc_offset_at(u + a, LEAP_STEPS as nat, k - 1);
}

/// GPS time (and QZSS and Galileo time) was set equal to UTC at 1980-01-06
/// 00:00:00 UTC, and BeiDou time at 2006-01-01 00:00:00 UTC: their offsets
/// from TAI are TAI - UTC at those instants.
pub proof fn lemma_navigation_offsets_from_utc()
    ensures
        GPS_OFFSET_ATTOS == utc_leap_offset(utc_count_of(1980, 1, 6, 0, 0, 0)) * ATTOS_PER_SEC,
        BDT_OFFSET_ATTOS == utc_leap_offset(utc_count_of(2006, 1, 1, 0, 0, 0)) * ATTOS_PER_SEC,
{
    lemma_leap_table_is_bulletin_c(9);
    lemma_leap_table_is_bulletin_c(10);
    lemma_leap_table_is_bulletin_c(23);
    lemma_leap_table_is_bulletin_c(24);
    lemma_utc_offset_at(utc_count_of(1980, 1, 6, 0, 0, 0), LEAP_STEPS as nat, 9);
    lemma_utc_offset_at(utc_count_of(2006, 1, 1, 0, 0, 0), LEAP_STEPS as nat, 23);
}

/// Between the start of step `k` and that of the next, TAI - UTC is `10 + k` s.
pub proof fn lemma_offset_in_step(u: int, k: int)
    requires
        0 <= k < LEAP_STEPS,
        utc_step_attos(k) <= u,
        k + 1 < LEAP_STEPS ==> u < utc_step_attos(k + 1),
    ensures
        utc_leap_offset(u) == 10 + k,
{
    lemma_utc_offset_at(u, LEAP_STEPS as nat, k);
}

/// Before the first step both offsets are zero.
pub proof fn lemma_before_1972(t: int)
    requires
        t < utc_step_attos(0),
    ensures
        utc_leap_offset(t) == 0,
        tai_leap_offset(t) == 0,
{
    lemma_utc_offset_at(t, LEAP_STEPS as nat, -1);
    lemma_tai_offset_at(t, LEAP_STEPS as nat, -1);
}

/// No leap second among steps `1..n` holds `t` when `t` lies past the
/// inserted seconds of step `j` and before the start of step `j + 1` on TAI.
proof fn lemma_not_leap_from(t: int, n: nat, j: int)
    requires
        n <= LEAP_STEPS,
        -1 <= j < LEAP_STEPS,
        j >= 0 ==> utc_step_attos(j) + (10 + j) * ATTOS_PER_SEC <= t,
        j == -1 ==> t < tai_step_attos(0),
        j + 1 < LEAP_STEPS ==> t < tai_step_attos(j + 1),
    ensures
        !leap_second_from(t, n),
    decreases n,
{
    if n > 1 {
        let k = n - 1;
        if j >= 0 && k <= j {
            lemma_steps_monotone(k, j);
            assert(utc_step_attos(k) + (10 + k) * ATTOS_PER_SEC <= utc_step_attos(j) + (10 + j) * ATTOS_PER_SEC);
        } else if j == -1 {
            lemma_steps_monotone(0, k);
        } else {
            lemma_steps_monotone(j + 1, k);
        }
        lemma_not_leap_from(t, (n - 1) as nat, j);
    }
}

/// The TAI count of a UTC count never lies in an inserted leap second.
pub proof fn lemma_utc_image_not_leap(u: int)
    ensures
        !leap_second_at(u + utc_leap_offset(u) * ATTOS_PER_SEC),
{
    let j = lemma_utc_index(u, LEAP_STEPS as nat);
    let t = u + utc_leap_offset(u) * ATTOS_PER_SEC;
    if j >= 0 && j + 1 < LEAP_STEPS {
        lemma_step_gap(j);
    }
    lemma_not_leap_from(t, LEAP_STEPS as nat, j);
}

/// The step whose leap second holds `t`.
proof fn lemma_leap_index(t: int, n: nat) -> (k: int)
    requires
        n <= LEAP_STEPS,
        leap_second_from(t, n),
    ensures
        1 <= k < n,
        tai_step_attos(k) <= t < tai_step_attos(k) + ATTOS_PER_SEC,
    decreases n,
{
    if tai_step_attos(n - 1) <= t < tai_step_attos(n - 1) + ATTOS_PER_SEC {
        (n - 1) as int
    } else {
        lemma_leap_index(t, (n - 1) as nat)
    }
}

/// A count in the leap second of step `k` lies in a leap second.
proof fn lemma_leap_intro(t: int, n: nat, k: int)
    requires
        n <= LEAP_STEPS,
        1 <= k < n,
        tai_step_attos(k) <= t < tai_step_attos(k) + ATTOS_PER_SEC,
    ensures
        leap_second_from(t, n),
    decreases n,
{
    if k < n - 1 {
        lemma_leap_intro(t, (n - 1) as nat, k);
    }
}

/// Where the TAI second after UTC whole second `us` is an inserted leap
/// second, the instants of that leap second read back on UTC as the second
/// `us` (the last second of the old day), and lie in the leap second.
pub proof fn lemma_leap_second_reads_back(us: int, a: int)
    requires
        0 <= a < ATTOS_PER_SEC,
        i128::MIN + 100 * ATTOS_PER_SEC <= us * ATTOS_PER_SEC <= i128::MAX - 100 * ATTOS_PER_SEC,
        leap_second_at(us * ATTOS_PER_SEC + utc_leap_offset(us * ATTOS_PER_SEC) * ATTOS_PER_SEC + ATTOS_PER_SEC),
    ensures
        utc_leap_offset(us * ATTOS_PER_SEC + a) == utc_leap_offset(us * ATTOS_PER_SEC),
        from_tai_attos(Scale::UTC, us * ATTOS_PER_SEC + utc_leap_offset(us * ATTOS_PER_SEC) * ATTOS_PER_SEC + ATTOS_PER_SEC + a)
            == us * ATTOS_PER_SEC + a,
        leap_second_at(us * ATTOS_PER_SEC + utc_leap_offset(us * ATTOS_PER_SEC) * ATTOS_PER_SEC + ATTOS_PER_SEC + a),
        -1_000_000_000 <= us <= 1_000_000_000,
{
    let sp = ATTOS_PER_SEC as int;
    let u = us * sp;
    let off = utc_leap_offset(u);
    let t1 = u + off * sp + sp;
    let j = lemma_utc_index(u, LEAP_STEPS as nat);
    let k = lemma_leap_index(t1, LEAP_STEPS as nat);
    let mk = (leap_mjd(k) - 51544) * 86400 - 43200 + prev_offset(k);
    assert(tai_step_attos(k) == mk * sp);
    assert(t1 == (us + off + 1) * sp);
    assert(t1 == tai_step_attos(k));
    if j >= k {
        lemma_steps_monotone(k, j);
        assert(false);
    } else if j < k - 1 {
        if j >= 0 {
            lemma_steps_monotone(j + 1, k - 1);
        } else {
            lemma_steps_monotone(0, k - 1);
        }
        lemma_step_gap(k - 1);
        assert(false);
    }
    assert(j == k - 1);
    lemma_steps_monotone(0, k);
    lemma_steps_monotone(k, LEAP_STEPS - 1);
    lemma_utc_offset_at(u + a, LEAP_STEPS as nat, j);
    let r = t1 + a;
    if k + 1 < LEAP_STEPS {
        lemma_step_gap(k);
    }
    lemma_tai_offset_at(r, LEAP_STEPS as nat, k);
    lemma_leap_intro(r, LEAP_STEPS as nat, k);
}

/// A UTC count taken to TAI and back is unchanged, wherever the TAI count
/// fits an `i128`.
pub proof fn lemma_utc_tai_utc(u: int)
    requires
        i128::MIN <= u <= i128::MAX,
        u + utc_leap_offset(u) * ATTOS_PER_SEC <= i128::MAX,
    ensures
        from_tai_attos(Scale::UTC, tai_attos(Scale::UTC, u)) == u,
{
    let j = lemma_utc_index(u, LEAP_STEPS as nat);
    let off = utc_leap_offset(u);
    let t = u + off * ATTOS_PER_SEC;
    assert(tai_attos(Scale::UTC, u) == t);
    if j >= 0 && j + 1 < LEAP_STEPS {
        lemma_step_gap(j);
    }
    lemma_tai_offset_at(t, LEAP_STEPS as nat, j);
    assert(tai_leap_offset(t) == off);
}

/// Whether TAI count `t` lies in seconds that a step inserts into UTC (a
/// leap second, or the ten seconds at the start of 1972), which TAI-to-UTC
/// conversion reads as the last seconds of the old UTC day.
pub open spec fn in_leap_second(t: int) -> bool {
    exists|k: int| 0 <= k < LEAP_STEPS && #[trigger] tai_step_attos(k) <= t < utc_step_attos(k) + (10 + k) * ATTOS_PER_SEC
}

/// A TAI count taken to UTC and back is unchanged, except inside seconds
/// that a step inserts (which UTC reads as the seconds before them) and where
/// the UTC count would not fit an `i128`.
pub proof fn lemma_tai_utc_tai(t: int)
    requires
        i128::MIN <= t <= i128::MAX,
        t - tai_leap_offset(t) * ATTOS_PER_SEC >= i128::MIN,
        !in_leap_second(t),
    ensures
        tai_attos(Scale::UTC, from_tai_attos(Scale::UTC, t)) == t,
{
    let j = lemma_tai_index(t, LEAP_STEPS as nat);
    let off = tai_leap_offset(t);
    let u = t - off * ATTOS_PER_SEC;
    assert(from_tai_attos(Scale::UTC, t) == u);
    if j >= 0 {
        if utc_step_attos(j) + (10 + j) * ATTOS_PER_SEC > t {
            assert(in_leap_second(t));
        }
    }
    lemma_utc_offset_at(u, LEAP_STEPS as nat, j);
    assert(utc_leap_offset(u) == off);
}

/// The scales that differ from TAI by a constant.
pub open spec fn constant_offset_scale(s: Scale) -> bool {
    match s {
        Scale::TT | Scale::GPS | Scale::QZSS | Scale::GST | Scale::BDT => true,
        _ => false,
    }
}

/// On a scale with a constant offset, a TAI count taken there and back is
/// unchanged, and so is a count of that scale taken to TAI and back, wherever
/// the intermediate count fits an `i128`.
pub proof fn lemma_constant_offset_roundtrip(s: Scale, a: int)
    requires
        constant_offset_scale(s),
        i128::MIN <= a <= i128::MAX,
    ensures
        i128::MIN <= a + TT_TAI_OFFSET_ATTOS <= i128::MAX && s == Scale::TT
            ==> tai_attos(s, from_tai_attos(s, a)) == a,
        i128::MIN <= a - TT_TAI_OFFSET_ATTOS <= i128::MAX && s == Scale::TT
            ==> from_tai_attos(s, tai_attos(s, a)) == a,
        i128::MIN <= a - GPS_OFFSET_ATTOS <= i128::MAX && (s == Scale::GPS || s == Scale::QZSS || s == Scale::GST)
            ==> tai_attos(s, from_tai_attos(s, a)) == a,
        i128::MIN <= a + GPS_OFFSET_ATTOS <= i128::MAX && (s == Scale::GPS || s == Scale::QZSS || s == Scale::GST)
            ==> from_tai_attos(s, tai_attos(s, a)) == a,
        i128::MIN <= a - BDT_OFFSET_ATTOS <= i128::MAX && s == Scale::BDT
            ==> tai_attos(s, from_tai_attos(s, a)) == a,
        i128::MIN <= a + BDT_OFFSET_ATTOS <= i128::MAX && s == Scale::BDT
            ==> from_tai_attos(s, tai_attos(s, a)) == a,
{
}

impl Dt {
    /// The Julian Date on the `target` scale, split into whole days and the
    /// attoseconds left over, both toward zero (see `to_jd_raw`).
    pub fn to_jd(&self) -> (r: (i128, i128))
        requires
            int_scale(self.scale),
            int_scale(self.target),
        ensures
            r.0 == tdiv(jd_attos(to_attos_spec(self.scale, self.target, self.attos as int)), ATTOS_PER_DAY as int),
            r.1 == trem(jd_attos(to_attos_spec(self.scale, self.target, self.attos as int)), ATTOS_PER_DAY as int),
    {
        self.to(self.target).to_jd_raw()
    }

    /// The Julian day number (floored) on the `target` scale and the
    /// attoseconds into that day.
    pub fn to_jd_floor(&self) -> (r: (i128, u128))
        requires
            int_scale(self.scale),
            int_scale(self.target),
        ensures
            r.0 == JD_2000 + to_attos_spec(self.scale, self.target, self.attos as int) / (ATTOS_PER_DAY as int),
            r.1 == to_attos_spec(self.scale, self.target, self.attos as int) % (ATTOS_PER_DAY as int),
    {
        self.to(self.target).to_jd_floor_raw()
    }

    /// The modified Julian day number on the `target` scale and the
    /// attoseconds into that day, in `[0, 1 day)`.
    pub fn to_mjd(&self) -> (r: (i128, i128))
        requires
            int_scale(self.scale),
            int_scale(self.target),
        ensures
            0 <= r.1 < ATTOS_PER_DAY,
            r.0 * ATTOS_PER_DAY + r.1 == to_attos_spec(self.scale, self.target, self.attos as int)
                + mjd_day_offset() * ATTOS_PER_DAY + ATTOS_PER_HALF_DAY,
    {
        self.to(self.target).to_mjd_raw()
    }

    /// The modified Julian day number (floored) on the `target` scale and the
    /// attoseconds into that day, in `[0, 1 day)`.
    pub fn to_mjd_floor(&self) -> (r: (i128, u128))
        requires
            int_scale(self.scale),
            int_scale(self.target),
        ensures
            0 <= r.1 < ATTOS_PER_DAY,
            r.0 * ATTOS_PER_DAY + r.1 == to_attos_spec(self.scale, self.target, self.attos as int)
                + mjd_day_offset() * ATTOS_PER_DAY + ATTOS_PER_HALF_DAY,
    {
        self.to(self.target).to_mjd_floor_raw()
    }

    /// This instant on its `target` scale less `epoch` (itself first taken to
    /// `target` when `convert_epoch`), saturating.
    pub fn to_scale_and_diff(&self, epoch: Dt, convert_epoch: bool) -> (r: Dt)
        requires
            int_scale(self.scale),
            int_scale(self.target),
            convert_epoch ==> int_scale(epoch.scale),
        ensures
            r.attos == clamp128(to_attos_spec(self.scale, self.target, self.attos as int)
                - (if convert_epoch { to_attos_spec(epoch.scale, self.target, epoch.attos as int) } else { epoch.attos as int })),
            r.scale == to_scale_spec(self.scale, self.target),
            r.target == self.target,
    {
        if convert_epoch {
            self.to(self.target).to_diff_raw(epoch.to(self.target))
        } else {
            self.to(self.target).to_diff_raw(epoch)
        }
    }

    /// This instant on `scale`, less `epoch`, saturating.
    pub fn to_epoch(self, epoch: Dt, scale: Scale) -> (r: Dt)
        requires
            int_scale(self.scale),
            int_scale(scale),
        ensures
            r.attos == clamp128(to_attos_spec(self.scale, scale, self.attos as int) - epoch.attos),
            r.scale == to_scale_spec(self.scale, scale),
            r.target == self.target,
    {
        self.to(scale).to_diff_raw(epoch)
    }
}


/// Converting a value already on TAI to TAI changes nothing, whatever
/// correction is handed in.
pub proof fn lemma_tai_fixed(a: int, c: Option<i128>)
    ensures
        tai_attos(Scale::TAI, a) == a,
        tai_attos_with(Scale::TAI, a, c) == a,
{
}

/// A SPICE UTC count taken to TAI and back is unchanged, wherever the TAI
/// count fits an `i128` (before 1972 both steps use SPICE's 9 s).
pub proof fn lemma_spice_tai_spice(u: int)
    requires
        i128::MIN <= u <= i128::MAX,
        u + utc_leap_offset(u) * ATTOS_PER_SEC <= i128::MAX,
        u + 9 * ATTOS_PER_SEC <= i128::MAX,
    ensures
        from_tai_attos(Scale::UTCSpice, tai_attos(Scale::UTCSpice, u)) == u,
{
    lemma_offset_bounds(u);
    if u >= utc_step_attos(0) {
        let j = lemma_utc_index(u, LEAP_STEPS as nat);
        lemma_utc_tai_utc(u);
        assert(j >= 0) by {
            if j == -1 {
                assert(u < utc_step_attos(0));
            }
        }
        lemma_steps_monotone(0, j);
    }
}

/// With the same correction, a count on TDB, ET, LTC or TCL taken to TAI and
/// back is unchanged, wherever the intermediate counts fit an `i128`.
pub proof fn lemma_corrected_roundtrip(s: Scale, a: int, c: Option<i128>)
    requires
        s == Scale::TDB || s == Scale::ET || s == Scale::LTC || s == Scale::TCL,
        i128::MIN <= a <= i128::MAX,
        i128::MIN <= a - corr_or_zero(c) <= i128::MAX,
        s != Scale::TCL ==> i128::MIN <= a - corr_or_zero(c) - TT_TAI_OFFSET_ATTOS,
    ensures
        from_tai_attos_with(s, tai_attos_with(s, a, c), c) == a,
{
}

impl Dt {
    /// This instant on TAI for any scale, `target` kept. For TDB, ET and LTC
    /// the correction is the scale less TT at this instant, in attoseconds;
    /// for TCB it is TDB less TT at the TDB instant that the TCB rate step
    /// gives; for TCL it is TCL less TAI; for SOFA's UTC it is TAI less UTC
    /// where SOFA's historical model applies, and with none the leap-second
    /// table is used. No correction counts as zero. These corrections come
    /// from floating-point series and tables that the caller evaluates. The
    /// other scales ignore the correction and convert as `to_tai` does.
    pub fn to_tai_with(&self, correction: Option<i128>) -> (r: Dt)
        ensures
            r.scale == Scale::TAI,
            r.target == self.target,
            r.attos == tai_attos_with(self.scale, self.attos as int, correction),
            int_scale(self.scale) ==> r.attos == tai_attos(self.scale, self.attos as int),
    {
        let a = self.attos;
        let k: i128 = match correction {
            Some(v) => v,
            None => 0,
        };
        match self.scale {
            Scale::TDB | Scale::ET | Scale::LTC => Dt::new(sat_sub(sat_sub(a, k), TT_TAI_OFFSET_ATTOS), Scale::TAI, self.target),
            Scale::TCB => Dt::new(sat_sub(sat_sub(tcb_to_tdb(a), k), TT_TAI_OFFSET_ATTOS), Scale::TAI, self.target),
            Scale::TCL => Dt::new(sat_sub(a, k), Scale::TAI, self.target),
            Scale::UTCSofa => match correction {
                Some(v) => Dt::new(sat_add(a, v), Scale::TAI, self.target),
                None => Dt::new(a, Scale::UTC, self.target).to_tai(),
            },
            _ => self.to_tai(),
        }
    }

    /// A TAI count taken to scale `new` for any scale, `target` kept, with
    /// the correction for the scales that need one as in `to_tai_with` (for
    /// TDB, ET and LTC the scale less TT at the TT instant, for TCB that of
    /// TDB before the rate step, for TCL TCL less TAI, for SOFA's UTC TAI
    /// less UTC). `new == TAI` gives `to_tai_with(correction)`; `UT` and
    /// `Custom` leave the value as it is.
    pub fn convert_with(&self, new: Scale, correction: Option<i128>) -> (r: Dt)
        ensures
            new == Scale::TAI ==> r.attos == tai_attos_with(self.scale, self.attos as int, correction) && r.scale == Scale::TAI,
            (new == Scale::UT || new == Scale::Custom) ==> r == *self,
            new != Scale::TAI && new != Scale::UT && new != Scale::Custom
                ==> r.attos == from_tai_attos_with(new, self.attos as int, correction) && r.scale == new,
            r.target == self.target,
    {
        let a = self.attos;
        let k: i128 = match correction {
            Some(v) => v,
            None => 0,
        };
        match new {
            Scale::TAI => self.to_tai_with(correction),
            Scale::TDB | Scale::ET | Scale::LTC => Dt::new(sat_add(sat_add(a, TT_TAI_OFFSET_ATTOS), k), new, self.target),
            Scale::TCB => Dt::new(tdb_to_tcb(sat_add(sat_add(a, TT_TAI_OFFSET_ATTOS), k)), new, self.target),
            Scale::TCL => Dt::new(sat_add(a, k), new, self.target),
            Scale::UTCSofa => match correction {
                Some(v) => Dt::new(sat_sub(a, v), new, self.target),
                None => Dt::new(sat_sub(a, tai_offset(a) * ATTOS_PER_SEC), new, self.target),
            },
            _ => self.convert(new),
        }
    }

    /// This instant on scale `new` for any pair of scales, going through TAI
    /// (`to_tai_with(from_correction)`, then `convert_with(new,
    /// to_correction)`); `target` is kept, and a value already on `new` is
    /// returned as it is.
    pub fn to_with(&self, new: Scale, from_correction: Option<i128>, to_correction: Option<i128>) -> (r: Dt)
        ensures
            r.target == self.target,
            r.attos == to_attos_with(self.scale, new, self.attos as int, from_correction, to_correction),
            r.scale == to_scale_spec(self.scale, new),
    {
        if self.scale == Scale::TAI {
            self.convert_with(new, to_correction)
        } else if self.scale != new {
            self.to_tai_with(from_correction).convert_with(new, to_correction)
        } else {
            *self
        }
    }
}

} // verus!
