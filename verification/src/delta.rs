//! `Delta`: a signed duration of whole seconds plus attoseconds.
use vstd::prelude::*;
use crate::arith::{clamp64, sat_add64, sat_sub64, div_floor, rem_floor};

verus! {

/// Attoseconds per second.
pub const ATTOS: u64 = 1_000_000_000_000_000_000;

/// The largest total a `Delta` holds: `i64::MAX` seconds and `10^18 - 1` attoseconds.
pub open spec fn max_total() -> int {
    i64::MAX * (ATTOS as int) + (ATTOS as int) - 1
}

/// The smallest total a `Delta` holds: `i64::MIN` seconds.
pub open spec fn min_total() -> int {
    i64::MIN * (ATTOS as int)
}

/// The total `from_total_attos` keeps: `x` itself, or `max_total()` above
/// `i64::MAX` whole seconds, or `min_total()` below `i64::MIN` whole seconds.
pub open spec fn clamp_total(x: int) -> int {
    if x > i64::MAX * (ATTOS as int) {
        max_total()
    } else if x < min_total() {
        min_total()
    } else {
        x
    }
}

/// `a / b` rounded toward negative infinity (`b != 0`).
pub open spec fn floor_div(a: int, b: int) -> int {
    if b > 0 { a / b } else { (-a) / (-b) }
}

/// `|x|`.
pub open spec fn iabs(x: int) -> int {
    if x < 0 { -x } else { x }
}

/// `|a|` rounded to the nearest multiple of `|b|`, halves upward, with the sign of `a`.
pub open spec fn round_to_multiple(a: int, b: int) -> int {
    let q = iabs(a) / iabs(b);
    let r = iabs(a) % iabs(b);
    let m = (if 2 * r >= iabs(b) { q + 1 } else { q }) * iabs(b);
    if a < 0 { -m } else { m }
}

/// A duration: `sec` whole seconds plus `subsec` attoseconds, `0 <= subsec < 10^18`.
#[derive(Clone, Copy, PartialEq, Eq, Structural, Debug, Hash)]
pub struct Delta {
    sec: i64,
    subsec: u64,
}

impl Delta {
    #[verifier::type_invariant]
    spec fn inv(self) -> bool {
        self.subsec < ATTOS
    }

    /// The duration in attoseconds.
    pub closed spec fn total(self) -> int {
        self.sec * (ATTOS as int) + self.subsec
    }

    /// The `Delta` whose total is `t` (meaningful for `t` in range).
    pub closed spec fn of_total_spec(t: int) -> Delta {
        Delta { sec: (t / (ATTOS as int)) as i64, subsec: (t % (ATTOS as int)) as u64 }
    }

    proof fn lemma_canonical(self)
        requires
            self.inv(),
        ensures
            self == Delta::of_total_spec(self.total()),
    {
        self.lemma_parts();
    }

    proof fn lemma_parts(self)
        requires
            self.inv(),
        ensures
            self.total() / (ATTOS as int) == self.sec,
            self.total() % (ATTOS as int) == self.subsec,
            min_total() <= self.total() <= max_total(),
    {
        vstd::arithmetic::div_mod::lemma_fundamental_div_mod_converse(
            self.total(), ATTOS as int, self.sec as int, self.subsec as int);
    }

    /// The `Delta` of total `t` attoseconds, for `t` in range.
    fn of_total(t: i128) -> (r: Delta)
        requires
            min_total() <= t <= max_total(),
        ensures
            r.total() == t,
    {
        let q = div_floor(t, ATTOS as i128);
        let rem = rem_floor(t, ATTOS as i128);
        proof {
            vstd::arithmetic::div_mod::lemma_fundamental_div_mod(t as int, ATTOS as int);
            assert(i64::MIN <= q <= i64::MAX) by (nonlinear_arith)
                requires (ATTOS as int) * q + rem == t, 0 <= rem < ATTOS as int,
                    min_total() <= t <= max_total(), ATTOS as int == 1_000_000_000_000_000_000int;
        }
        Delta { sec: q as i64, subsec: rem as u64 }
    }

    /// Zero seconds.
    pub fn zero() -> (r: Delta)
        ensures
            r.total() == 0,
    {
        Delta { sec: 0, subsec: 0 }
    }

    /// The longest duration: `i64::MAX` seconds and `10^18 - 1` attoseconds.
    pub fn max_value() -> (r: Delta)
        ensures
            r.total() == max_total(),
    {
        Delta { sec: i64::MAX, subsec: ATTOS - 1 }
    }

    /// The most negative duration: `i64::MIN` seconds.
    pub fn min_value() -> (r: Delta)
        ensures
            r.total() == min_total(),
    {
        Delta { sec: i64::MIN, subsec: 0 }
    }

    /// Whole seconds, rounded toward negative infinity.
    pub fn sec(&self) -> (r: i64)
        ensures
            r == self.total() / (ATTOS as int),
    {
        proof { use_type_invariant(self); self.lemma_parts(); }
        self.sec
    }

    /// Attoseconds past the whole seconds, in `[0, 10^18)`.
    pub fn subsec(&self) -> (r: u64)
        ensures
            r == self.total() % (ATTOS as int),
    {
        proof { use_type_invariant(self); self.lemma_parts(); }
        self.subsec
    }

    /// The duration in attoseconds.
    pub fn total_attos(&self) -> (r: i128)
        ensures
            r == self.total(),
            min_total() <= r <= max_total(),
    {
        proof { use_type_invariant(self); self.lemma_parts(); }
        (self.sec as i128) * (ATTOS as i128) + (self.subsec as i128)
    }

    /// `sec` seconds plus `subsec` attoseconds; a `subsec` of a second or more carries.
    pub fn new(sec: i64, subsec: u64) -> (r: Delta)
        requires
            sec + (subsec as int) / (ATTOS as int) <= i64::MAX,
        ensures
            r.total() == sec * (ATTOS as int) + subsec,
    {
        if subsec >= ATTOS {
            let carry = (subsec / ATTOS) as i64;
            let s = subsec % ATTOS;
            proof {
                vstd::arithmetic::div_mod::lemma_fundamental_div_mod(subsec as int, ATTOS as int);
                assert((sec + carry) * (ATTOS as int) == sec * (ATTOS as int) + carry * (ATTOS as int)) by (nonlinear_arith);
            }
            Delta { sec: sec + carry, subsec: s }
        } else {
            Delta { sec, subsec }
        }
    }

    /// `count` units of `unit` attoseconds, where `unit` divides a second.
    fn from_subunits(count: i64, unit: u64) -> (r: Delta)
        requires
            1 <= unit <= 1_000_000_000_000_000,
            (ATTOS as int) % (unit as int) == 0,
        ensures
            r.total() == count * unit,
    {
        proof {
            assert(-0x8000_0000_0000_0000int * 1_000_000_000_000_000int <= count * unit <= 0x8000_0000_0000_0000int * 1_000_000_000_000_000int) by (nonlinear_arith)
                requires 1 <= unit <= 1_000_000_000_000_000, i64::MIN <= count <= i64::MAX;
        }
        let t = (count as i128) * (unit as i128);
        Delta::of_total(t)
    }

    /// `s` seconds.
    pub fn from_sec(s: i64) -> (r: Delta)
        ensures
            r.total() == s * (ATTOS as int),
    {
        Delta::new(s, 0)
    }

    /// `ms` milliseconds.
    pub fn from_ms(ms: i64) -> (r: Delta)
        ensures
            r.total() == ms * 1_000_000_000_000_000,
    {
        Delta::from_subunits(ms, 1_000_000_000_000_000)
    }

    /// `us` microseconds.
    pub fn from_us(us: i64) -> (r: Delta)
        ensures
            r.total() == us * 1_000_000_000_000,
    {
        Delta::from_subunits(us, 1_000_000_000_000)
    }

    /// `ns` nanoseconds.
    pub fn from_ns(ns: i64) -> (r: Delta)
        ensures
            r.total() == ns * 1_000_000_000,
    {
        Delta::from_subunits(ns, 1_000_000_000)
    }

    /// `ps` picoseconds.
    pub fn from_ps(ps: i64) -> (r: Delta)
        ensures
            r.total() == ps * 1_000_000,
    {
        Delta::from_subunits(ps, 1_000_000)
    }

    /// `fs` femtoseconds.
    pub fn from_fs(fs: i64) -> (r: Delta)
        ensures
            r.total() == fs * 1_000,
    {
        Delta::from_subunits(fs, 1_000)
    }

    /// `as_` attoseconds.
    pub fn from_as(as_: i64) -> (r: Delta)
        ensures
            r.total() == as_,
    {
        Delta::from_subunits(as_, 1)
    }

    /// `count` units of `10^-18 / per_atto` s, rounded down to the attosecond.
    fn from_sub_atto(count: i64, per_atto: i128) -> (r: Delta)
        requires
            1 <= per_atto,
        ensures
            r.total() == (count as int) / (per_atto as int),
    {
        proof {
            vstd::arithmetic::div_mod::lemma_fundamental_div_mod(count as int, per_atto as int);
            assert(i64::MIN <= (count as int) / (per_atto as int) <= i64::MAX) by (nonlinear_arith)
                requires per_atto * ((count as int) / (per_atto as int)) + (count as int) % (per_atto as int) == count,
                    0 <= (count as int) % (per_atto as int) < per_atto, per_atto >= 1, i64::MIN <= count <= i64::MAX;
        }
        Delta::of_total(div_floor(count as i128, per_atto))
    }

    /// `zs` zeptoseconds, rounded down to the attosecond.
    pub fn from_zs(zs: i64) -> (r: Delta)
        ensures
            r.total() == (zs as int) / 1_000,
    {
        Delta::from_sub_atto(zs, 1_000)
    }

    /// `ys` yoctoseconds, rounded down to the attosecond.
    pub fn from_ys(ys: i64) -> (r: Delta)
        ensures
            r.total() == (ys as int) / 1_000_000,
    {
        Delta::from_sub_atto(ys, 1_000_000)
    }

    /// `rs` rontoseconds, rounded down to the attosecond.
    pub fn from_rs(rs: i64) -> (r: Delta)
        ensures
            r.total() == (rs as int) / 1_000_000_000,
    {
        Delta::from_sub_atto(rs, 1_000_000_000)
    }

    /// `qs` quectoseconds, rounded down to the attosecond.
    pub fn from_qs(qs: i64) -> (r: Delta)
        ensures
            r.total() == (qs as int) / 1_000_000_000_000,
    {
        Delta::from_sub_atto(qs, 1_000_000_000_000)
    }

    /// `m` minutes.
    pub fn from_min(m: i64) -> (r: Delta)
        requires
            i64::MIN <= m * 60 <= i64::MAX,
        ensures
            r.total() == m * 60 * (ATTOS as int),
    {
        Delta::from_sec(m * 60)
    }

    /// `h` hours.
    pub fn from_hr(h: i64) -> (r: Delta)
        requires
            i64::MIN <= h * 3600 <= i64::MAX,
        ensures
            r.total() == h * 3600 * (ATTOS as int),
    {
        Delta::from_sec(h * 3600)
    }

    /// Hours, minutes and seconds plus milli-, micro- and nanoseconds (each may be negative).
    pub fn from_hms(hr: i64, min: i64, sec: i64, ms: i64, us: i64, ns: i64) -> (r: Delta)
        requires
            min_total() <= (hr * 3600 + min * 60 + sec) * (ATTOS as int) + (ms * 1_000_000 + us * 1_000 + ns) * 1_000_000_000 <= max_total(),
        ensures
            r.total() == (hr * 3600 + min * 60 + sec) * (ATTOS as int) + (ms * 1_000_000 + us * 1_000 + ns) * 1_000_000_000,
    {
        let total_secs = (hr as i128) * 3600 + (min as i128) * 60 + (sec as i128);
        let sub_ns = (ms as i128) * 1_000_000 + (us as i128) * 1_000 + (ns as i128);
        let sub_attos = sub_ns * 1_000_000_000;
        proof {
            assert(-0x100_0000_0000_0000_0000_0000_0000_0000int <= sub_ns * 1_000_000_000 <= 0x100_0000_0000_0000_0000_0000_0000_0000int) by (nonlinear_arith)
                requires sub_ns == ms * 1_000_000 + us * 1_000 + ns,
                    i64::MIN <= ms <= i64::MAX, i64::MIN <= us <= i64::MAX, i64::MIN <= ns <= i64::MAX;
            assert(-0x8000_0000_0000_0000_0000_0000_0000_0000int < total_secs * (ATTOS as int) < 0x8000_0000_0000_0000_0000_0000_0000_0000int);
        }
        let t = total_secs * (ATTOS as i128) + sub_attos;
        Delta::of_total(t)
    }

    /// The negated duration.
    pub fn neg(self) -> (r: Delta)
        requires
            self.total() != min_total(),
        ensures
            r.total() == -self.total(),
    {
        proof { use_type_invariant(&self); self.lemma_parts(); }
        if self.subsec == 0 {
            Delta { sec: -self.sec, subsec: 0 }
        } else {
            Delta { sec: -1 - self.sec, subsec: ATTOS - self.subsec }
        }
    }

    /// `true` when the duration is zero.
    pub fn is_zero(self) -> (r: bool)
        ensures
            r == (self.total() == 0),
    {
        proof { use_type_invariant(&self); self.lemma_parts(); }
        self.sec == 0 && self.subsec == 0
    }

    /// The `Delta` of `attos` attoseconds, saturating above `i64::MAX` whole seconds
    /// and below `i64::MIN` whole seconds.
    pub fn from_total_attos(attos: i128) -> (r: Delta)
        ensures
            r.total() == clamp_total(attos as int),
    {
        if attos > (i64::MAX as i128) * (ATTOS as i128) {
            return Delta::max_value();
        }
        if attos < (i64::MIN as i128) * (ATTOS as i128) {
            return Delta::min_value();
        }
        Delta::of_total(attos)
    }
}

/// The inputs on which `add` completes: the whole seconds add up without
/// overflow and the sum is a `Delta`.
pub open spec fn add_fits(a: Delta, b: Delta) -> bool {
    &&& i64::MIN <= a.total() / (ATTOS as int) + b.total() / (ATTOS as int) <= i64::MAX
    &&& min_total() <= a.total() + b.total() <= max_total()
}

/// The inputs on which `sub` completes.
pub open spec fn sub_fits(a: Delta, b: Delta) -> bool {
    &&& i64::MIN <= a.total() / (ATTOS as int) - b.total() / (ATTOS as int) <= i64::MAX
    &&& min_total() <= a.total() - b.total() <= max_total()
}

/// The total of a saturated result with whole seconds `s` and attoseconds `f`:
/// at `i64::MAX` seconds the attoseconds become `10^18 - 1`, at `i64::MIN` they become `0`.
pub open spec fn saturated_total(s: int, f: int) -> int {
    if s == i64::MAX { max_total() } else if s == i64::MIN { min_total() } else { s * (ATTOS as int) + f }
}

/// The total `saturating_add` gives.
pub open spec fn sat_add_total(a: int, b: int) -> int {
    let fs = a % (ATTOS as int) + b % (ATTOS as int);
    let carry = if fs >= ATTOS as int { 1int } else { 0int };
    let s = clamp64(clamp64(a / (ATTOS as int) + b / (ATTOS as int)) + carry);
    saturated_total(s, fs - carry * (ATTOS as int))
}

/// The total `saturating_sub` gives.
pub open spec fn sat_sub_total(a: int, b: int) -> int {
    let fd = a % (ATTOS as int) - b % (ATTOS as int);
    let borrow = if fd < 0 { 1int } else { 0int };
    let s = clamp64(clamp64(a / (ATTOS as int) - b / (ATTOS as int)) - borrow);
    saturated_total(s, fd + borrow * (ATTOS as int))
}

impl Delta {
    /// `self + rhs`.
    pub fn add(self, rhs: Delta) -> (r: Delta)
        requires
            add_fits(self, rhs),
        ensures
            r.total() == self.total() + rhs.total(),
    {
        proof {
            use_type_invariant(&self); self.lemma_parts();
            use_type_invariant(&rhs); rhs.lemma_parts();
        }
        let mut sec = self.sec + rhs.sec;
        let mut subsec = self.subsec + rhs.subsec;
        if subsec >= ATTOS {
            proof {
                assert(self.total() + rhs.total() == (sec + 1) * (ATTOS as int) + (subsec - ATTOS)) by (nonlinear_arith)
                    requires self.total() == self.sec * (ATTOS as int) + self.subsec,
                        rhs.total() == rhs.sec * (ATTOS as int) + rhs.subsec, sec == self.sec + rhs.sec,
                        subsec == self.subsec + rhs.subsec;
                assert(sec + 1 <= i64::MAX) by (nonlinear_arith)
                    requires self.total() + rhs.total() == (sec + 1) * (ATTOS as int) + (subsec - ATTOS),
                        self.total() + rhs.total() <= max_total(), subsec >= ATTOS, ATTOS as int == 1_000_000_000_000_000_000int;
            }
            sec += 1;
            subsec -= ATTOS;
        } else {
            proof {
                assert(self.total() + rhs.total() == sec * (ATTOS as int) + subsec) by (nonlinear_arith)
                    requires self.total() == self.sec * (ATTOS as int) + self.subsec,
                        rhs.total() == rhs.sec * (ATTOS as int) + rhs.subsec, sec == self.sec + rhs.sec,
                        subsec == self.subsec + rhs.subsec;
            }
        }
        Delta { sec, subsec }
    }

    /// `self - rhs`.
    pub fn sub(self, rhs: Delta) -> (r: Delta)
        requires
            sub_fits(self, rhs),
        ensures
            r.total() == self.total() - rhs.total(),
    {
        proof {
            use_type_invariant(&self); self.lemma_parts();
            use_type_invariant(&rhs); rhs.lemma_parts();
        }
        let mut sec = self.sec - rhs.sec;
        let mut subsec = self.subsec;
        if subsec >= rhs.subsec {
            proof {
                assert(self.total() - rhs.total() == sec * (ATTOS as int) + (subsec - rhs.subsec)) by (nonlinear_arith)
                    requires self.total() == self.sec * (ATTOS as int) + self.subsec,
                        rhs.total() == rhs.sec * (ATTOS as int) + rhs.subsec, sec == self.sec - rhs.sec,
                        subsec == self.subsec;
            }
            subsec -= rhs.subsec;
        } else {
            proof {
                assert(self.total() - rhs.total() == (sec - 1) * (ATTOS as int) + (subsec + ATTOS - rhs.subsec)) by (nonlinear_arith)
                    requires self.total() == self.sec * (ATTOS as int) + self.subsec,
                        rhs.total() == rhs.sec * (ATTOS as int) + rhs.subsec, sec == self.sec - rhs.sec,
                        subsec == self.subsec;
                assert(sec - 1 >= i64::MIN) by (nonlinear_arith)
                    requires self.total() - rhs.total() == (sec - 1) * (ATTOS as int) + (subsec + ATTOS - rhs.subsec),
                        self.total() - rhs.total() >= min_total(), subsec < rhs.subsec, rhs.subsec < ATTOS,
                        ATTOS as int == 1_000_000_000_000_000_000int;
            }
            sec -= 1;
            subsec += ATTOS - rhs.subsec;
        }
        Delta { sec, subsec }
    }

    /// `self + rhs`, the whole seconds saturating at the `i64` limits (a
    /// saturated result is [`Delta::max_value`] or [`Delta::min_value`]).
    pub fn saturating_add(self, rhs: Delta) -> (r: Delta)
        ensures
            r.total() == sat_add_total(self.total(), rhs.total()),
    {
        proof {
            use_type_invariant(&self); self.lemma_parts();
            use_type_invariant(&rhs); rhs.lemma_parts();
        }
        let mut subsec = self.subsec + rhs.subsec;
        let mut carry = 0i64;
        if subsec >= ATTOS {
            subsec -= ATTOS;
            carry = 1;
        }
        let sec = sat_add64(sat_add64(self.sec, rhs.sec), carry);
        if sec == i64::MAX {
            Delta { sec, subsec: ATTOS - 1 }
        } else if sec == i64::MIN {
            Delta { sec, subsec: 0 }
        } else {
            Delta { sec, subsec }
        }
    }

    /// `self - rhs`, the whole seconds saturating at the `i64` limits.
    pub fn saturating_sub(self, rhs: Delta) -> (r: Delta)
        ensures
            r.total() == sat_sub_total(self.total(), rhs.total()),
    {
        proof {
            use_type_invariant(&self); self.lemma_parts();
            use_type_invariant(&rhs); rhs.lemma_parts();
        }
        let mut subsec = self.subsec;
        let mut borrow = 0i64;
        if subsec >= rhs.subsec {
            subsec -= rhs.subsec;
        } else {
            subsec += ATTOS - rhs.subsec;
            borrow = 1;
        }
        let sec = sat_sub64(sat_sub64(self.sec, rhs.sec), borrow);
        if sec == i64::MAX {
            Delta { sec, subsec: ATTOS - 1 }
        } else if sec == i64::MIN {
            Delta { sec, subsec: 0 }
        } else {
            Delta { sec, subsec }
        }
    }
}

impl Delta {
    /// `self * rhs` in attoseconds, then clamped as by [`Delta::from_total_attos`];
    /// zero when either factor is zero.
    pub fn mul(self, rhs: i64) -> (r: Delta)
        requires
            i128::MIN <= self.total() * rhs <= i128::MAX,
        ensures
            r.total() == clamp_total(self.total() * rhs),
    {
        if rhs == 0 || self.is_zero() {
            return Delta::zero();
        }
        let total = self.total_attos() * (rhs as i128);
        Delta::from_total_attos(total)
    }

    /// `self / rhs` in attoseconds, rounded toward negative infinity; zero when
    /// `rhs` or `self` is zero.
    pub fn div(self, rhs: i64) -> (r: Delta)
        ensures
            rhs == 0 ==> r.total() == 0,
            rhs != 0 ==> r.total() == clamp_total(floor_div(self.total(), rhs as int)),
    {
        if rhs == 0 || self.is_zero() {
            return Delta::zero();
        }
        let total = self.total_attos();
        let result = if rhs > 0 {
            div_floor(total, rhs as i128)
        } else {
            div_floor(-total, -(rhs as i128))
        };
        Delta::from_total_attos(result)
    }

    /// The largest multiple of `unit` at or below `self` (for a negative
    /// `unit`, the Euclidean quotient times `unit`); `self` when `unit` is zero.
    pub fn floor(self, unit: Delta) -> (r: Delta)
        ensures
            unit.total() == 0 ==> r == self,
            unit.total() != 0 ==> r.total() == clamp_total(self.total() - self.total() % unit.total()),
    {
        if unit.is_zero() {
            return self;
        }
        let a = self.total_attos();
        let b = unit.total_attos();
        let m = rem_floor(a, b);
        Delta::from_total_attos(a - m)
    }

    /// The smallest multiple of `unit` at or above `self`; `self` when `unit` is zero.
    pub fn ceil(self, unit: Delta) -> (r: Delta)
        ensures
            unit.total() == 0 ==> r == self,
            unit.total() != 0 ==> r.total() == clamp_total(self.total() + (-self.total()) % unit.total()),
    {
        if unit.is_zero() {
            return self;
        }
        let a = self.total_attos();
        let b = unit.total_attos();
        let m = rem_floor(-a, b);
        Delta::from_total_attos(a + m)
    }

    /// The multiple of `unit` nearest to `self`, halves rounding away from zero;
    /// `self` when `unit` is zero.
    pub fn round(self, unit: Delta) -> (r: Delta)
        ensures
            unit.total() == 0 ==> r == self,
            unit.total() != 0 ==> r.total() == clamp_total(round_to_multiple(self.total(), unit.total())),
    {
        if unit.is_zero() {
            return self;
        }
        let a = self.total_attos();
        let b = unit.total_attos();
        let abs_a = if a < 0 { -a } else { a };
        let abs_b = if b < 0 { -b } else { b };
        let q = div_floor(abs_a, abs_b);
        let rem = rem_floor(abs_a, abs_b);
        proof {
            vstd::arithmetic::div_mod::lemma_fundamental_div_mod(abs_a as int, abs_b as int);
            assert(0 <= q * abs_b <= abs_a) by (nonlinear_arith)
                requires abs_b * q + rem == abs_a, 0 <= rem < abs_b, abs_a >= 0;
            assert((q + 1) * abs_b == q * abs_b + abs_b) by (nonlinear_arith);
        }
        let q_rounded = if rem >= abs_b - rem { q + 1 } else { q };
        let m = q_rounded * abs_b;
        let result = if a < 0 { -m } else { m };
        Delta::from_total_attos(result)
    }

    /// `floor(|self| / |unit|)`, saturating at `usize::MAX`; `0` when `unit` is zero.
    pub fn abs_div_floor(self, unit: Delta) -> (r: usize)
        ensures
            unit.total() == 0 ==> r == 0,
            unit.total() != 0 ==> r == (if iabs(self.total()) / iabs(unit.total()) > usize::MAX {
                usize::MAX as int
            } else {
                iabs(self.total()) / iabs(unit.total())
            }),
    {
        if unit.is_zero() {
            return 0;
        }
        let t = self.total_attos();
        let u = unit.total_attos();
        let a = if t < 0 { -t } else { t };
        let b = if u < 0 { -u } else { u };
        let q = div_floor(a, b);
        proof {
            vstd::arithmetic::div_mod::lemma_div_pos_is_pos(a as int, b as int);
        }
        if q > usize::MAX as i128 {
            usize::MAX
        } else {
            q as usize
        }
    }
}

impl Default for Delta {
    fn default() -> (r: Delta)
        ensures
            r.total() == 0,
    {
        Delta::zero()
    }
}

impl core::ops::Add for Delta {
    type Output = Delta;

    fn add(self, rhs: Delta) -> (r: Delta) {
        let r = Delta::add(self, rhs);
        proof { use_type_invariant(&r); r.lemma_canonical(); }
        r
    }
}

impl vstd::std_specs::ops::AddSpecImpl for Delta {
    open spec fn obeys_add_spec() -> bool {
        true
    }

    open spec fn add_req(self, rhs: Delta) -> bool {
        add_fits(self, rhs)
    }

    open spec fn add_spec(self, rhs: Delta) -> Delta {
        Delta::of_total_spec(self.total() + rhs.total())
    }
}

impl core::ops::Sub for Delta {
    type Output = Delta;

    fn sub(self, rhs: Delta) -> (r: Delta) {
        let r = Delta::sub(self, rhs);
        proof { use_type_invariant(&r); r.lemma_canonical(); }
        r
    }
}

impl vstd::std_specs::ops::SubSpecImpl for Delta {
    open spec fn obeys_sub_spec() -> bool {
        true
    }

    open spec fn sub_req(self, rhs: Delta) -> bool {
        sub_fits(self, rhs)
    }

    open spec fn sub_spec(self, rhs: Delta) -> Delta {
        Delta::of_total_spec(self.total() - rhs.total())
    }
}

impl core::ops::Mul<i64> for Delta {
    type Output = Delta;

    fn mul(self, rhs: i64) -> (r: Delta) {
        let r = Delta::mul(self, rhs);
        proof { use_type_invariant(&r); r.lemma_canonical(); }
        r
    }
}

impl vstd::std_specs::ops::MulSpecImpl<i64> for Delta {
    open spec fn obeys_mul_spec() -> bool {
        true
    }

    open spec fn mul_req(self, rhs: i64) -> bool {
        i128::MIN <= self.total() * rhs <= i128::MAX
    }

    open spec fn mul_spec(self, rhs: i64) -> Delta {
        Delta::of_total_spec(clamp_total(self.total() * rhs))
    }
}

impl core::ops::Div<i64> for Delta {
    type Output = Delta;

    fn div(self, rhs: i64) -> (r: Delta) {
        let r = Delta::div(self, rhs);
        proof { use_type_invariant(&r); r.lemma_canonical(); }
        r
    }
}

impl vstd::std_specs::ops::DivSpecImpl<i64> for Delta {
    open spec fn obeys_div_spec() -> bool {
        true
    }

    open spec fn div_req(self, rhs: i64) -> bool {
        true
    }

    open spec fn div_spec(self, rhs: i64) -> Delta {
        Delta::of_total_spec(if rhs == 0 { 0 } else { clamp_total(floor_div(self.total(), rhs as int)) })
    }
}

impl core::ops::Neg for Delta {
    type Output = Delta;

    fn neg(self) -> (r: Delta) {
        let r = Delta::neg(self);
        proof { use_type_invariant(&r); r.lemma_canonical(); }
        r
    }
}

impl vstd::std_specs::ops::NegSpecImpl for Delta {
    open spec fn obeys_neg_spec() -> bool {
        true
    }

    open spec fn neg_req(self) -> bool {
        self.total() != min_total()
    }

    open spec fn neg_spec(self) -> Delta {
        Delta::of_total_spec(-self.total())
    }
}

/// The decimal digits of `n` as ASCII bytes ("0" for zero).
pub open spec fn dec_digits(n: nat) -> Seq<u8>
    decreases n,
{
    if n < 10 { seq![(48 + n) as u8] } else { dec_digits(n / 10).push((48 + n % 10) as u8) }
}

/// The last `k` decimal digits of `f`, zero-padded, as ASCII bytes.
pub open spec fn pad_digits(f: nat, k: nat) -> Seq<u8>
    decreases k,
{
    if k == 0 { Seq::empty() } else { pad_digits(f / 10, (k - 1) as nat).push((48 + f % 10) as u8) }
}

/// `s` without its trailing `'0'` bytes.
pub open spec fn trim_zeros(s: Seq<u8>) -> Seq<u8>
    decreases s.len(),
{
    if s.len() > 0 && s.last() == 48 { trim_zeros(s.drop_last()) } else { s }
}

/// The ISO 8601 text of a duration of `t` attoseconds: `PT0S` for zero,
/// otherwise an optional `-`, `PT`, then hours `H`, minutes `M` and seconds
/// `S` (each left out when zero), the seconds with up to 18 fraction digits
/// and no trailing zeros.
pub open spec fn iso_duration_text(t: int) -> Seq<u8> {
    if t == 0 {
        seq![80u8, 84u8, 48u8, 83u8]
    } else {
        let a = iabs(t);
        let hours = a / (3600 * (ATTOS as int));
        let r1 = a % (3600 * (ATTOS as int));
        let minutes = r1 / (60 * (ATTOS as int));
        let r2 = r1 % (60 * (ATTOS as int));
        let secs = r2 / (ATTOS as int);
        let frac = r2 % (ATTOS as int);
        (if t < 0 { seq![45u8] } else { Seq::empty() })
            + seq![80u8, 84u8]
            + (if hours > 0 { dec_digits(hours as nat).push(72u8) } else { Seq::empty() })
            + (if minutes > 0 { dec_digits(minutes as nat).push(77u8) } else { Seq::empty() })
            + (if secs > 0 || frac > 0 {
                dec_digits(secs as nat)
                    + (if frac != 0 { seq![46u8] + trim_zeros(pad_digits(frac as nat, 18)) } else { Seq::empty() })
                    + seq![83u8]
            } else {
                Seq::empty()
            })
    }
}

/// `s` read as ASCII characters.
pub open spec fn ascii_chars(s: Seq<u8>) -> Seq<char> {
    s.map_values(|b: u8| b as char)
}

/// Every byte is ASCII.
pub open spec fn all_ascii(s: Seq<u8>) -> bool {
    forall|i: int| 0 <= i < s.len() ==> #[trigger] s[i] < 128
}

proof fn lemma_concat_ascii(a: Seq<u8>, b: Seq<u8>)
    requires
        all_ascii(a),
        all_ascii(b),
    ensures
        all_ascii(a + b),
{
    assert forall|i: int| 0 <= i < (a + b).len() implies #[trigger] (a + b)[i] < 128 by {
        if i < a.len() { assert((a + b)[i] == a[i]); } else { assert((a + b)[i] == b[i - a.len()]); }
    }
}

proof fn lemma_dec_digits_ascii(n: nat)
    ensures
        all_ascii(dec_digits(n)),
    decreases n,
{
    if n >= 10 {
        lemma_dec_digits_ascii(n / 10);
        let d = dec_digits(n / 10);
        assert forall|i: int| 0 <= i < dec_digits(n).len() implies #[trigger] dec_digits(n)[i] < 128 by {
            if i < d.len() { assert(dec_digits(n)[i] == d[i]); }
        }
    }
}

proof fn lemma_pad_digits_ascii(f: nat, k: nat)
    ensures
        pad_digits(f, k).len() == k,
        all_ascii(pad_digits(f, k)),
    decreases k,
{
    if k > 0 {
        lemma_pad_digits_ascii(f / 10, (k - 1) as nat);
        let d = pad_digits(f / 10, (k - 1) as nat);
        assert forall|i: int| 0 <= i < pad_digits(f, k).len() implies #[trigger] pad_digits(f, k)[i] < 128 by {
            if i < d.len() { assert(pad_digits(f, k)[i] == d[i]); }
        }
    }
}

proof fn lemma_trim_ascii(s: Seq<u8>)
    requires
        all_ascii(s),
    ensures
        all_ascii(trim_zeros(s)),
    decreases s.len(),
{
    if s.len() > 0 && s.last() == 48 {
        let t = s.drop_last();
        assert forall|i: int| 0 <= i < t.len() implies #[trigger] t[i] < 128 by {
            assert(t[i] == s[i]);
        }
        lemma_trim_ascii(t);
    }
}

/// Appends the decimal digits of `n`.
fn push_dec(v: &mut Vec<u8>, n: u128)
    ensures
        final(v)@ == old(v)@ + dec_digits(n as nat),
    decreases n,
{
    if n >= 10 {
        push_dec(v, n / 10);
    }
    v.push((48 + n % 10) as u8);
    proof {
        if n >= 10 {
            assert(dec_digits(n as nat) == dec_digits((n / 10) as nat).push((48 + n % 10) as u8));
        }
    }
}

/// Appends the last `k` decimal digits of `f`, zero-padded.
fn push_pad(v: &mut Vec<u8>, f: u128, k: u32)
    ensures
        final(v)@ == old(v)@ + pad_digits(f as nat, k as nat),
    decreases k,
{
    if k > 0 {
        push_pad(v, f / 10, k - 1);
        v.push((48 + f % 10) as u8);
        proof {
            assert(pad_digits(f as nat, k as nat) == pad_digits((f / 10) as nat, (k - 1) as nat).push((48 + f % 10) as u8));
        }
    }
}

/// Appends the digits of `n` followed by the unit letter `unit`.
fn push_field(v: &mut Vec<u8>, n: u128, unit: u8)
    ensures
        final(v)@ == old(v)@ + dec_digits(n as nat).push(unit),
{
    let ghost start = v@;
    push_dec(v, n);
    v.push(unit);
    proof { assert(v@ =~= start + dec_digits(n as nat).push(unit)); }
}

/// Appends `.` and the 18-digit fraction `f` without trailing zeros.
fn push_frac(v: &mut Vec<u8>, f: u128)
    ensures
        final(v)@ == old(v)@ + (seq![46u8] + trim_zeros(pad_digits(f as nat, 18))),
{
    let mut w: Vec<u8> = Vec::new();
    push_pad(&mut w, f, 18);
    let ghost full = w@;
    proof { assert(full =~= pad_digits(f as nat, 18)); }
    while w.len() > 0 && w[w.len() - 1] == 48
        invariant
            trim_zeros(full) == trim_zeros(w@),
        decreases w@.len(),
    {
        let ghost prev = w@;
        w.pop();
        proof { assert(w@ =~= prev.drop_last()); }
    }
    let ghost start = v@;
    v.push(46u8);
    let mut k: usize = 0;
    while k < w.len()
        invariant
            k <= w@.len(),
            trim_zeros(full) == w@,
            v@ == start.push(46u8) + w@.subrange(0, k as int),
        decreases w@.len() - k,
    {
        v.push(w[k]);
        k += 1;
        proof { assert(v@ =~= start.push(46u8) + w@.subrange(0, k as int)); }
    }
    proof {
        assert(w@.subrange(0, w@.len() as int) =~= w@);
        assert(v@ =~= start + (seq![46u8] + trim_zeros(pad_digits(f as nat, 18))));
    }
}

/// A `String` of ASCII bytes, through `String::from_utf8`.
///
/// Trusted: `String::from_utf8` returns `Ok` for valid UTF-8, which ASCII is,
/// and an ASCII byte decodes to the `char` with the same code.
#[verifier::external_body]
fn ascii_to_string(bytes: Vec<u8>) -> (r: String)
    requires
        all_ascii(bytes@),
    ensures
        r@ == ascii_chars(bytes@),
{
    match String::from_utf8(bytes) {
        Ok(s) => s,
        Err(_) => String::new(),
    }
}

/// The hours, minutes, seconds and attoseconds of `a` attoseconds.
fn hms_split(a: u128) -> (r: (u128, u128, u128, u128))
    ensures
        r.0 == (a as int) / (3600 * (ATTOS as int)),
        r.1 == ((a as int) % (3600 * (ATTOS as int))) / (60 * (ATTOS as int)),
        r.2 == (((a as int) % (3600 * (ATTOS as int))) % (60 * (ATTOS as int))) / (ATTOS as int),
        r.3 == (((a as int) % (3600 * (ATTOS as int))) % (60 * (ATTOS as int))) % (ATTOS as int),
{
    let a_per_s: u128 = ATTOS as u128;
    let a_per_m: u128 = a_per_s * 60;
    let a_per_h: u128 = a_per_m * 60;
    let r1 = a % a_per_h;
    let r2 = r1 % a_per_m;
    (a / a_per_h, r1 / a_per_m, r2 / a_per_s, r2 % a_per_s)
}

/// The ISO text pieces after `PT`.
pub open spec fn iso_fields(a: int) -> Seq<u8> {
    let hours = a / (3600 * (ATTOS as int));
    let r1 = a % (3600 * (ATTOS as int));
    let minutes = r1 / (60 * (ATTOS as int));
    let r2 = r1 % (60 * (ATTOS as int));
    let secs = r2 / (ATTOS as int);
    let frac = r2 % (ATTOS as int);
    (if hours > 0 { dec_digits(hours as nat).push(72u8) } else { Seq::empty() })
        + (if minutes > 0 { dec_digits(minutes as nat).push(77u8) } else { Seq::empty() })
        + (if secs > 0 || frac > 0 {
            dec_digits(secs as nat)
                + (if frac != 0 { seq![46u8] + trim_zeros(pad_digits(frac as nat, 18)) } else { Seq::empty() })
                + seq![83u8]
        } else {
            Seq::empty()
        })
}

proof fn lemma_iso_fields_ascii(a: int)
    requires
        a >= 0,
    ensures
        all_ascii(iso_fields(a)),
{
    let hours = a / (3600 * (ATTOS as int));
    let r1 = a % (3600 * (ATTOS as int));
    let minutes = r1 / (60 * (ATTOS as int));
    let r2 = r1 % (60 * (ATTOS as int));
    let secs = r2 / (ATTOS as int);
    let frac = r2 % (ATTOS as int);
    lemma_dec_digits_ascii(hours as nat);
    lemma_dec_digits_ascii(minutes as nat);
    lemma_dec_digits_ascii(secs as nat);
    lemma_pad_digits_ascii(frac as nat, 18);
    lemma_trim_ascii(pad_digits(frac as nat, 18));
    let ph = if hours > 0 { dec_digits(hours as nat).push(72u8) } else { Seq::empty() };
    let pm = if minutes > 0 { dec_digits(minutes as nat).push(77u8) } else { Seq::empty() };
    let pf = if frac != 0 { seq![46u8] + trim_zeros(pad_digits(frac as nat, 18)) } else { Seq::empty() };
    lemma_concat_ascii(dec_digits(hours as nat), seq![72u8]);
    assert(dec_digits(hours as nat).push(72u8) =~= dec_digits(hours as nat) + seq![72u8]);
    lemma_concat_ascii(dec_digits(minutes as nat), seq![77u8]);
    assert(dec_digits(minutes as nat).push(77u8) =~= dec_digits(minutes as nat) + seq![77u8]);
    lemma_concat_ascii(seq![46u8], trim_zeros(pad_digits(frac as nat, 18)));
    lemma_concat_ascii(dec_digits(secs as nat), pf);
    lemma_concat_ascii(dec_digits(secs as nat) + pf, seq![83u8]);
    let ps = if secs > 0 || frac > 0 { dec_digits(secs as nat) + pf + seq![83u8] } else { Seq::empty() };
    lemma_concat_ascii(ph, pm);
    lemma_concat_ascii(ph + pm, ps);
}

/// The ISO text is `PT0S`, or a sign, `PT` and the fields.
proof fn lemma_iso_text_shape(t: int)
    ensures
        t != 0 ==> iso_duration_text(t) == (if t < 0 { seq![45u8] } else { Seq::empty() }) + seq![80u8, 84u8] + iso_fields(iabs(t)),
{
    if t != 0 {
        let a = iabs(t);
        let h = if a / (3600 * (ATTOS as int)) > 0 { dec_digits((a / (3600 * (ATTOS as int))) as nat).push(72u8) } else { Seq::empty() };
        assert(iso_duration_text(t) =~= (if t < 0 { seq![45u8] } else { Seq::empty() }) + seq![80u8, 84u8] + iso_fields(iabs(t)));
    }
}

/// The text of a nonzero duration is its head, then the hours, minutes and
/// seconds pieces.
proof fn lemma_iso_assemble(t: int, a: int, head: Seq<u8>, ph: Seq<u8>, pm: Seq<u8>, ps: Seq<u8>)
    requires
        t != 0,
        a == iabs(t),
        head == (if t < 0 { seq![45u8] } else { Seq::empty() }) + seq![80u8, 84u8],
        ph == (if a / (3600 * (ATTOS as int)) > 0 { dec_digits((a / (3600 * (ATTOS as int))) as nat).push(72u8) } else { Seq::empty() }),
        pm == ({
            let m = (a % (3600 * (ATTOS as int))) / (60 * (ATTOS as int));
            if m > 0 { dec_digits(m as nat).push(77u8) } else { Seq::empty() }
        }),
        ps == ({
            let r2 = (a % (3600 * (ATTOS as int))) % (60 * (ATTOS as int));
            let secs = r2 / (ATTOS as int);
            let frac = r2 % (ATTOS as int);
            if secs > 0 || frac > 0 {
                dec_digits(secs as nat)
                    + (if frac != 0 { seq![46u8] + trim_zeros(pad_digits(frac as nat, 18)) } else { Seq::empty() })
                    + seq![83u8]
            } else {
                Seq::empty()
            }
        }),
    ensures
        iso_duration_text(t) == head + ph + pm + ps,
        all_ascii(head + ph + pm + ps),
{
    assert(iso_fields(a) == ph + pm + ps);
    lemma_iso_text_shape(t);
    lemma_iso_fields_ascii(a);
    lemma_concat_ascii(head, iso_fields(a));
    assert(head + ph + pm + ps =~= head + (ph + pm + ps));
}

/// The ASCII bytes of the ISO 8601 text of a duration of `total` attoseconds.
pub fn iso_text_bytes(total: i128) -> (r: Vec<u8>)
    ensures
        r@ == iso_duration_text(total as int),
        all_ascii(r@),
{
    if total == 0 {
        let mut z = Vec::new();
        z.push(80u8);
        z.push(84u8);
        z.push(48u8);
        z.push(83u8);
        proof { assert(z@ =~= seq![80u8, 84u8, 48u8, 83u8]); }
        return z;
    }
    let negative = total < 0;
    let a: u128 = crate::arith::abs_u128(total);
    let mut s: Vec<u8> = Vec::new();
    if negative {
        s.push(45u8);
    }
    s.push(80u8);
    s.push(84u8);
    let ghost head = s@;
    let (hours, minutes, seconds, frac_attos) = hms_split(a);
    let ghost ph = if hours > 0 { dec_digits(hours as nat).push(72u8) } else { Seq::<u8>::empty() };
    let ghost pm = if minutes > 0 { dec_digits(minutes as nat).push(77u8) } else { Seq::<u8>::empty() };
    let ghost pf = if frac_attos != 0 { seq![46u8] + trim_zeros(pad_digits(frac_attos as nat, 18)) } else { Seq::<u8>::empty() };
    let ghost ps = if seconds > 0 || frac_attos > 0 { dec_digits(seconds as nat) + pf + seq![83u8] } else { Seq::<u8>::empty() };
    if hours > 0 {
        push_field(&mut s, hours, 72u8);
    }
    proof { assert(s@ =~= head + ph); assert(head =~= (if negative { seq![45u8] } else { Seq::empty() }) + seq![80u8, 84u8]); }
    let ghost after_h = s@;
    if minutes > 0 {
        push_field(&mut s, minutes, 77u8);
    }
    proof { assert(s@ =~= after_h + pm); }
    let ghost after_m = s@;
    if seconds > 0 || frac_attos > 0 {
        push_dec(&mut s, seconds);
        let ghost after_digits = s@;
        if frac_attos != 0 {
            push_frac(&mut s, frac_attos);
        }
        proof { assert(s@ =~= after_digits + pf); }
        s.push(83u8);
        proof { assert(s@ =~= after_m + ps); }
    } else {
        proof { assert(s@ =~= after_m + ps); }
    }
    proof { lemma_iso_assemble(total as int, a as int, head, ph, pm, ps); }
    s
}

/// The ISO 8601 text of a duration of `total` attoseconds.
pub fn iso_text(total: i128) -> (r: String)
    ensures
        r@ == ascii_chars(iso_duration_text(total as int)),
{
    ascii_to_string(iso_text_bytes(total))
}

impl Delta {
    /// The ASCII bytes of [`Delta::to_iso_duration`].
    pub fn iso_duration_bytes(&self) -> (r: Vec<u8>)
        ensures
            r@ == iso_duration_text(self.total()),
            all_ascii(r@),
    {
        iso_text_bytes(self.total_attos())
    }

    /// The ISO 8601 duration text of this duration, such as `PT1H23M45.6789S`,
    /// `-PT0.5S` or `PT0S`.
    pub fn to_iso_duration(&self) -> (r: String)
        ensures
            r@ == ascii_chars(iso_duration_text(self.total())),
    {
        let b = self.iso_duration_bytes();
        ascii_to_string(b)
    }
}

/// `from_total_attos` is exact on totals of at most `i64::MAX` whole seconds
/// (a total above that, up to `max_total()`, reads as `max_total()`).
pub proof fn lemma_from_total_exact(t: int)
    requires
        min_total() <= t <= i64::MAX * (ATTOS as int),
    ensures
        clamp_total(t) == t,
{
}

/// For a positive unit, `floor` and `ceil` give the multiples of the unit
/// just below and just above the value, and `round` one within half a unit.
pub proof fn lemma_delta_rounding(a: int, b: int)
    requires
        b > 0,
    ensures
        (a - a % b) % b == 0,
        a - b < a - a % b <= a,
        (a + (-a) % b) % b == 0,
        a <= a + (-a) % b < a + b,
        round_to_multiple(a, b) % b == 0,
        2 * iabs(a) - b < 2 * iabs(round_to_multiple(a, b)) <= 2 * iabs(a) + b,
{
    vstd::arithmetic::div_mod::lemma_fundamental_div_mod(a, b);
    vstd::arithmetic::div_mod::lemma_fundamental_div_mod(-a, b);
    assert(a - a % b == (a / b) * b) by (nonlinear_arith) requires b * (a / b) + a % b == a;
    assert(a + (-a) % b == (-((-a) / b)) * b) by (nonlinear_arith) requires b * ((-a) / b) + (-a) % b == -a;
    vstd::arithmetic::div_mod::lemma_mod_multiples_basic(a / b, b);
    vstd::arithmetic::div_mod::lemma_mod_multiples_basic(-((-a) / b), b);
    let x = iabs(a);
    vstd::arithmetic::div_mod::lemma_fundamental_div_mod(x, b);
    let q = x / b;
    let qr = if 2 * (x % b) >= b { q + 1 } else { q };
    vstd::arithmetic::div_mod::lemma_div_pos_is_pos(x, b);
    assert(qr * b >= 0) by (nonlinear_arith) requires qr >= 0, b > 0;
    assert((q + 1) * b == q * b + b) by (nonlinear_arith);
    vstd::arithmetic::div_mod::lemma_mod_multiples_basic(qr, b);
    vstd::arithmetic::div_mod::lemma_mod_multiples_basic(-qr, b);
    assert(-(qr * b) == (-qr) * b) by (nonlinear_arith);
    assert(iabs(round_to_multiple(a, b)) == qr * b);
    assert(x == q * b + x % b) by (nonlinear_arith) requires b * (x / b) + x % b == x, q == x / b;
}

} // verus!
