//! `DtBig`: a 320-bit two's-complement signed integer stored as five
//! little-endian `u64` limbs.
//!
//! Every operation is specified over the mathematical value of the limbs:
//! `uval` reads the limbs as an unsigned number in `[0, 2^320)`, `sval`
//! reads them as a two's-complement number in `[-2^319, 2^319)`.
use vstd::prelude::*;
use vstd::arithmetic::div_mod::*;
use vstd::arithmetic::mul::*;
use vstd::arithmetic::power2::*;
use vstd::arithmetic::power::pow;
use crate::arith::{tdiv, trem};

verus! {

/// `2^64`, the radix of one limb.
pub open spec fn b1() -> int { 0x10000000000000000int }
/// `2^128`.
pub open spec fn b2() -> int { 0x100000000000000000000000000000000int }
/// `2^192`.
pub open spec fn b3() -> int { 0x1000000000000000000000000000000000000000000000000int }
/// `2^256`.
pub open spec fn b4() -> int { 0x10000000000000000000000000000000000000000000000000000000000000000int }
/// `2^319`, the weight of the sign bit.
pub open spec fn half() -> int { 0x80000000000000000000000000000000000000000000000000000000000000000000000000000000int }
/// `2^320`, the modulus of wrapping arithmetic.
pub open spec fn modulus() -> int { 0x100000000000000000000000000000000000000000000000000000000000000000000000000000000int }

/// Unsigned value of five little-endian limbs.
pub open spec fn limbs_val(n: [u64; 5]) -> int {
    n[0] as int + n[1] as int * b1() + n[2] as int * b2() + n[3] as int * b3() + n[4] as int * b4()
}

/// The two's-complement reading of an unsigned value in `[0, 2^320)`.
pub open spec fn signed_of(u: int) -> int {
    if u < half() { u } else { u - modulus() }
}

/// The unique value congruent to `x` modulo `2^320` in `[-2^319, 2^319)`:
/// the result of two's-complement wrapping.
pub open spec fn wrap(x: int) -> int {
    signed_of(x % modulus())
}

/// `true` when `x` is representable by a `DtBig`.
pub open spec fn in_range(x: int) -> bool {
    -half() <= x < half()
}

/// `x` clamped to the `DtBig` range.
pub open spec fn saturate(x: int) -> int {
    if x >= half() { half() - 1 } else if x < -half() { -half() } else { x }
}

#[derive(Clone, Copy, PartialEq, Eq, Hash, Debug)]
pub struct DtBig {
    /// Raw 320-bit two's-complement integer stored as 5 little-endian `u64` parts.
    /// The sign bit is the highest bit (bit 63) of `num[4]`.
    num: [u64; 5],
}

impl DtBig {
    /// The raw limbs.
    pub closed spec fn limbs(self) -> [u64; 5] {
        self.num
    }

    /// The limbs read as an unsigned number in `[0, 2^320)`.
    pub open spec fn uval(self) -> int {
        limbs_val(self.limbs())
    }

    /// The limbs read as a two's-complement number in `[-2^319, 2^319)`.
    pub open spec fn sval(self) -> int {
        signed_of(self.uval())
    }

    /// Every `DtBig` has an unsigned value in `[0, 2^320)` and a signed
    /// value in `[-2^319, 2^319)`; the sign bit is the top bit of limb 4.
    pub proof fn lemma_bounds(self)
        ensures
            0 <= self.uval() < modulus(),
            in_range(self.sval()),
            (self.uval() >= half()) <==> (self.limbs()[4] >= 0x8000_0000_0000_0000u64),
            self.sval() < 0 <==> self.uval() >= half(),
            self.uval() == (if self.sval() < 0 { self.sval() + modulus() } else { self.sval() }),
    {
    }

    /// Two `DtBig`s with the same unsigned value are the same.
    pub proof fn lemma_uval_injective(self, other: Self)
        requires
            self.uval() == other.uval(),
        ensures
            self == other,
    {
        lemma_limbs_injective(self.num, other.num);
    }

    /// Two `DtBig`s with the same signed value are the same.
    pub proof fn lemma_sval_injective(self, other: Self)
        requires
            self.sval() == other.sval(),
        ensures
            self == other,
    {
        self.lemma_bounds();
        other.lemma_bounds();
        self.lemma_uval_injective(other);
    }
}

/// Limb arrays are determined by their value.
pub proof fn lemma_limbs_injective(a: [u64; 5], b: [u64; 5])
    requires
        limbs_val(a) == limbs_val(b),
    ensures
        a == b,
{
    lemma_limbs_digits(a);
    lemma_limbs_digits(b);
    assert(a =~= b);
}

/// Each limb is a base-`2^64` digit of the value.
pub proof fn lemma_limbs_digits(a: [u64; 5])
    ensures
        a[0] as int == limbs_val(a) % b1(),
        a[1] as int == (limbs_val(a) / b1()) % b1(),
        a[2] as int == (limbs_val(a) / b2()) % b1(),
        a[3] as int == (limbs_val(a) / b3()) % b1(),
        a[4] as int == limbs_val(a) / b4(),
{
    let v = limbs_val(a);
    let t1 = a[1] as int + a[2] as int * b1() + a[3] as int * b2() + a[4] as int * b3();
    let t2 = a[2] as int + a[3] as int * b1() + a[4] as int * b2();
    let t3 = a[3] as int + a[4] as int * b1();
    assert(v == a[0] as int + t1 * b1());
    lemma_fundamental_div_mod_converse(v, b1(), t1, a[0] as int);
    assert(t1 == a[1] as int + t2 * b1());
    lemma_fundamental_div_mod_converse(t1, b1(), t2, a[1] as int);
    assert(v == (a[0] as int + a[1] as int * b1()) + t2 * b2());
    lemma_fundamental_div_mod_converse(v, b2(), t2, a[0] as int + a[1] as int * b1());
    lemma_fundamental_div_mod_converse(t2, b1(), t3, a[2] as int);
    assert(v == (a[0] as int + a[1] as int * b1() + a[2] as int * b2()) + t3 * b3());
    lemma_fundamental_div_mod_converse(v, b3(), t3, a[0] as int + a[1] as int * b1() + a[2] as int * b2());
    lemma_fundamental_div_mod_converse(t3, b1(), a[4] as int, a[3] as int);
    assert(v == (a[0] as int + a[1] as int * b1() + a[2] as int * b2() + a[3] as int * b3()) + a[4] as int * b4());
    lemma_fundamental_div_mod_converse(v, b4(), a[4] as int, a[0] as int + a[1] as int * b1() + a[2] as int * b2() + a[3] as int * b3());
}

/// `wrap` keeps values that are already in range and depends only on the
/// residue modulo `2^320`.
pub proof fn lemma_wrap(x: int, k: int)
    ensures
        in_range(wrap(x)),
        in_range(x) ==> wrap(x) == x,
        wrap(x + k * modulus()) == wrap(x),
        0 <= x < modulus() ==> wrap(x) == signed_of(x),
{
    lemma_mod_bound(x, modulus());
    lemma_mod_multiples_vanish(k, x, modulus());
    assert((k * modulus() + x) % modulus() == x % modulus());
    if 0 <= x < modulus() {
        lemma_small_mod(x as nat, modulus() as nat);
    }
    if in_range(x) {
        if x >= 0 {
            lemma_small_mod(x as nat, modulus() as nat);
        } else {
            lemma_mod_multiples_vanish(1, x, modulus());
            lemma_small_mod((x + modulus()) as nat, modulus() as nat);
        }
    }
}

/// `signed_of` of an unsigned value in range is `wrap` of any value
/// congruent to it.
pub proof fn lemma_wrap_of_uval(u: int, x: int, k: int)
    requires
        0 <= u < modulus(),
        u == x + k * modulus(),
    ensures
        signed_of(u) == wrap(x),
{
    lemma_wrap(x, k);
    lemma_wrap(u, 0);
}

/// Adds two limbs and an incoming carry.
fn add_limb(a: u64, b: u64, c: u64) -> (r: (u64, u64))
    requires
        c <= 1,
    ensures
        r.0 as int + r.1 as int * b1() == a as int + b as int + c as int,
        r.1 <= 1,
{
    let s = a as u128 + b as u128 + c as u128;
    if s >= 0x1_0000_0000_0000_0000u128 {
        ((s - 0x1_0000_0000_0000_0000u128) as u64, 1)
    } else {
        (s as u64, 0)
    }
}

/// Adds two limb arrays, returning the low 320 bits and the carry out.
fn add_limbs(a: [u64; 5], b: [u64; 5]) -> (r: ([u64; 5], u64))
    ensures
        limbs_val(r.0) + r.1 as int * modulus() == limbs_val(a) + limbs_val(b),
        r.1 <= 1,
{
    let (s0, c0) = add_limb(a[0], b[0], 0);
    let (s1, c1) = add_limb(a[1], b[1], c0);
    let (s2, c2) = add_limb(a[2], b[2], c1);
    let (s3, c3) = add_limb(a[3], b[3], c2);
    let (s4, c4) = add_limb(a[4], b[4], c3);
    ([s0, s1, s2, s3, s4], c4)
}

impl Default for DtBig {
    fn default() -> (r: Self)
        ensures
            r.sval() == 0,
    {
        Self::zero()
    }
}

impl DtBig {
    /// The zero value.
    pub fn zero() -> (r: Self)
        ensures
            r.sval() == 0,
            r.uval() == 0,
    {
        DtBig { num: [0; 5] }
    }

    /// The value `1`.
    pub fn one() -> (r: Self)
        ensures
            r.sval() == 1,
            r.uval() == 1,
    {
        DtBig { num: [1, 0, 0, 0, 0] }
    }

    /// The value `-1`.
    pub fn neg_one() -> (r: Self)
        ensures
            r.sval() == -1,
    {
        DtBig { num: [u64::MAX; 5] }
    }

    /// The value `10`.
    pub fn ten() -> (r: Self)
        ensures
            r.sval() == 10,
    {
        DtBig { num: [10, 0, 0, 0, 0] }
    }

    /// The minimum representable value (`-2^319`).
    pub fn min_value() -> (r: Self)
        ensures
            r.sval() == -half(),
            r.uval() == half(),
    {
        DtBig { num: [0, 0, 0, 0, 0x8000_0000_0000_0000u64] }
    }

    /// The maximum representable value (`2^319 - 1`).
    pub fn max_value() -> (r: Self)
        ensures
            r.sval() == half() - 1,
            r.uval() == half() - 1,
    {
        DtBig { num: [u64::MAX, u64::MAX, u64::MAX, u64::MAX, 0x7FFF_FFFF_FFFF_FFFFu64] }
    }

    /// Creates a new `DtBig` from its raw little-endian representation.
    pub fn from_num(num: [u64; 5]) -> (r: Self)
        ensures
            r.limbs() == num,
    {
        Self { num }
    }

    /// Returns the raw little-endian representation.
    pub fn num(&self) -> (r: &[u64; 5])
        ensures
            *r == self.limbs(),
    {
        &self.num
    }

    /// Equality of the two values (limb by limb).
    pub fn eq(self, other: Self) -> (r: bool)
        ensures
            r == (self.sval() == other.sval()),
            r == (self == other),
    {
        proof {
            if self.sval() == other.sval() {
                self.lemma_sval_injective(other);
            }
        }
        self.num[0] == other.num[0] && self.num[1] == other.num[1] && self.num[2] == other.num[2]
            && self.num[3] == other.num[3] && self.num[4] == other.num[4]
    }

    /// Returns `true` if this value is zero.
    pub fn is_zero(self) -> (r: bool)
        ensures
            r == (self.sval() == 0),
    {
        self.eq(Self::zero())
    }

    /// Returns `true` if this value is exactly `1`.
    pub fn is_one(self) -> (r: bool)
        ensures
            r == (self.sval() == 1),
    {
        self.eq(Self::one())
    }

    /// Returns `true` if this value is exactly `-1`.
    pub fn is_neg_one(self) -> (r: bool)
        ensures
            r == (self.sval() == -1),
    {
        self.eq(Self::neg_one())
    }

    /// Returns `true` if this value is exactly `MIN` (`-2^319`).
    pub fn is_min(self) -> (r: bool)
        ensures
            r == (self.sval() == -half()),
    {
        self.eq(Self::min_value())
    }

    /// Returns `true` if the number is negative (less than zero).
    pub fn is_negative(self) -> (r: bool)
        ensures
            r == (self.sval() < 0),
    {
        proof { self.lemma_bounds(); }
        self.num[4] >= 0x8000_0000_0000_0000u64
    }

    /// Returns `true` if the number is positive (greater than zero).
    pub fn is_positive(self) -> (r: bool)
        ensures
            r == (self.sval() > 0),
    {
        !self.is_zero() && !self.is_negative()
    }

    /// Returns `true` if `self` is even (divisible by 2).
    pub fn is_even(self) -> (r: bool)
        ensures
            r == (self.sval() % 2 == 0),
    {
        proof { self.lemma_parity(); }
        self.num[0] % 2 == 0
    }

    /// Returns `true` if `self` is odd (not divisible by 2).
    pub fn is_odd(self) -> (r: bool)
        ensures
            r == (self.sval() % 2 == 1),
    {
        proof { self.lemma_parity(); }
        self.num[0] % 2 == 1
    }

    /// The parity of the value is that of the lowest limb.
    pub proof fn lemma_parity(self)
        ensures
            self.sval() % 2 == self.limbs()[0] as int % 2,
    {
        let n = self.num;
        let rest = n[1] as int * 0x8000000000000000int + n[2] as int * 0x80000000000000000000000000000000int + n[3] as int * 0x800000000000000000000000000000000000000000000000int + n[4] as int * 0x8000000000000000000000000000000000000000000000000000000000000000int;
        assert(self.uval() == n[0] as int + 2 * rest);
        lemma_mod_multiples_vanish(rest, n[0] as int, 2);
        lemma_mod_multiples_vanish(-0x80000000000000000000000000000000000000000000000000000000000000000000000000000000int, self.uval(), 2);
        assert(self.sval() == self.uval() || self.sval() == self.uval() + (-0x80000000000000000000000000000000000000000000000000000000000000000000000000000000int) * 2);
        assert(self.uval() % 2 == n[0] as int % 2) by {
            lemma_mod_multiples_vanish(rest, n[0] as int, 2);
            assert(2 * rest + n[0] as int == rest * 2 + n[0] as int);
        }
    }

    /// Negation (two's complement), wrapping at `MIN`.
    pub fn neg(self) -> (r: Self)
        ensures
            r.sval() == wrap(-self.sval()),
            r.uval() == (modulus() - self.uval()) % modulus(),
    {
        let inv = [
            u64::MAX - self.num[0],
            u64::MAX - self.num[1],
            u64::MAX - self.num[2],
            u64::MAX - self.num[3],
            u64::MAX - self.num[4],
        ];
        let (s, c) = add_limbs(inv, [1, 0, 0, 0, 0]);
        proof {
            self.lemma_bounds();
            assert(limbs_val(inv) == modulus() - 1 - self.uval());
            let u = limbs_val(s);
            assert(u + c * modulus() == modulus() - self.uval());
            lemma_wrap(-self.sval(), 0);
            if self.uval() == 0 {
                assert(c == 1);
                lemma_mod_self_0(modulus());
                lemma_wrap_of_uval(u, -self.sval(), 0);
            } else {
                assert(c == 0);
                lemma_small_mod((modulus() - self.uval()) as nat, modulus() as nat);
                if self.sval() < 0 {
                    lemma_wrap_of_uval(u, -self.sval(), 0);
                } else {
                    lemma_wrap_of_uval(u, -self.sval(), 1);
                }
            }
        }
        DtBig { num: s }
    }

    /// Wrapping negation (two's complement).
    pub fn wrapping_neg(self) -> (r: Self)
        ensures
            r.sval() == wrap(-self.sval()),
    {
        self.neg()
    }

    /// Saturating negation (`MIN` → `MAX`, everything else normal).
    pub fn saturating_neg(self) -> (r: Self)
        ensures
            r.sval() == saturate(-self.sval()),
    {
        proof { self.lemma_bounds(); lemma_wrap(-self.sval(), 0); }
        if self.is_min() { Self::max_value() } else { self.neg() }
    }

    /// Checked negation. Returns `None` on `MIN`.
    pub fn checked_neg(self) -> (r: Option<Self>)
        ensures
            r is None <==> !in_range(-self.sval()),
            r matches Some(v) ==> v.sval() == -self.sval(),
    {
        proof { self.lemma_bounds(); lemma_wrap(-self.sval(), 0); }
        if self.is_min() { None } else { Some(self.neg()) }
    }

    /// Returns the negated value and whether overflow occurred (`MIN`).
    pub fn overflowing_neg(self) -> (r: (Self, bool))
        ensures
            r.1 == !in_range(-self.sval()),
            r.0.sval() == (if r.1 { half() - 1 } else { -self.sval() }),
    {
        proof { self.lemma_bounds(); lemma_wrap(-self.sval(), 0); }
        if self.is_min() { (Self::max_value(), true) } else { (self.neg(), false) }
    }
}


impl DtBig {
    /// Wrapping addition (modulo 2^320).
    pub fn wrapping_add(self, rhs: Self) -> (r: Self)
        ensures
            r.sval() == wrap(self.sval() + rhs.sval()),
            r.uval() == (self.uval() + rhs.uval()) % modulus(),
    {
        let (s, c) = add_limbs(self.num, rhs.num);
        proof {
            self.lemma_bounds();
            rhs.lemma_bounds();
            let u = limbs_val(s);
            assert(0 <= u < modulus()) by { DtBig { num: s }.lemma_bounds(); }
            lemma_fundamental_div_mod_converse(self.uval() + rhs.uval(), modulus(), c as int, u);
            let ks: int = if self.sval() < 0 { 1 } else { 0 };
            let kr: int = if rhs.sval() < 0 { 1 } else { 0 };
            lemma_wrap_of_uval(u, self.sval() + rhs.sval(), ks + kr - c);
        }
        DtBig { num: s }
    }

    /// `true` when the signed sum overflows, read from the sign bits as the
    /// two's-complement rule has it.
    fn add_overflows(self, rhs: Self, sum: Self) -> (r: bool)
        requires
            sum.sval() == wrap(self.sval() + rhs.sval()),
        ensures
            r == !in_range(self.sval() + rhs.sval()),
    {
        proof {
            self.lemma_bounds();
            rhs.lemma_bounds();
            lemma_wrap(self.sval() + rhs.sval(), 0);
            let x = self.sval() + rhs.sval();
            if x >= half() {
                lemma_wrap(x - modulus(), 1);
            } else if x < -half() {
                lemma_wrap(x + modulus(), -1);
            }
        }
        let self_sign = self.is_negative();
        let rhs_sign = rhs.is_negative();
        let sum_sign = sum.is_negative();
        self_sign == rhs_sign && self_sign != sum_sign
    }

    /// Saturating addition (clamps to `MIN` or `MAX` on overflow).
    pub fn saturating_add(self, rhs: Self) -> (r: Self)
        ensures
            r.sval() == saturate(self.sval() + rhs.sval()),
    {
        let sum = self.wrapping_add(rhs);
        proof { self.lemma_bounds(); rhs.lemma_bounds(); lemma_wrap(self.sval() + rhs.sval(), 0); }
        if self.add_overflows(rhs, sum) {
            if self.is_negative() { Self::min_value() } else { Self::max_value() }
        } else {
            sum
        }
    }

    /// Checked addition. Returns `None` on overflow.
    pub fn checked_add(self, rhs: Self) -> (r: Option<Self>)
        ensures
            r is None <==> !in_range(self.sval() + rhs.sval()),
            r matches Some(v) ==> v.sval() == self.sval() + rhs.sval(),
    {
        let sum = self.wrapping_add(rhs);
        proof { lemma_wrap(self.sval() + rhs.sval(), 0); }
        if self.add_overflows(rhs, sum) { None } else { Some(sum) }
    }

    /// Returns the sum and a boolean indicating whether overflow occurred.
    pub fn overflowing_add(self, rhs: Self) -> (r: (Self, bool))
        ensures
            r.0.sval() == wrap(self.sval() + rhs.sval()),
            r.1 == !in_range(self.sval() + rhs.sval()),
    {
        let sum = self.wrapping_add(rhs);
        let overflow = self.add_overflows(rhs, sum);
        (sum, overflow)
    }

    /// Wrapping subtraction (modulo 2^320).
    pub fn wrapping_sub(self, rhs: Self) -> (r: Self)
        ensures
            r.sval() == wrap(self.sval() - rhs.sval()),
            r.uval() == (self.uval() - rhs.uval()) % modulus(),
    {
        let n = rhs.neg();
        let r = self.wrapping_add(n);
        proof {
            self.lemma_bounds();
            rhs.lemma_bounds();
            n.lemma_bounds();
            r.lemma_bounds();
            let m = modulus();
            let x = self.sval() - rhs.sval();
            // n.uval() == -rhs.uval() + k m for some k, so r.uval() is congruent to x
            lemma_fundamental_div_mod(m - rhs.uval(), m);
            lemma_fundamental_div_mod(self.uval() + n.uval(), m);
            let k1 = (m - rhs.uval()) / m;
            let k2 = (self.uval() + n.uval()) / m;
            let ks: int = if self.sval() < 0 { 1 } else { 0 };
            let kr: int = if rhs.sval() < 0 { 1 } else { 0 };
            assert(r.uval() == x + (ks - kr + 1 - k1 - k2) * m);
            lemma_wrap_of_uval(r.uval(), x, ks - kr + 1 - k1 - k2);
            lemma_fundamental_div_mod_converse(self.uval() - rhs.uval(), m, k1 + k2 - 1, r.uval());
        }
        r
    }

    /// `true` when the signed difference overflows.
    fn sub_overflows(self, rhs: Self, diff: Self) -> (r: bool)
        requires
            diff.sval() == wrap(self.sval() - rhs.sval()),
        ensures
            r == !in_range(self.sval() - rhs.sval()),
    {
        proof {
            self.lemma_bounds();
            rhs.lemma_bounds();
            lemma_wrap(self.sval() - rhs.sval(), 0);
            let x = self.sval() - rhs.sval();
            if x >= half() {
                lemma_wrap(x - modulus(), 1);
            } else if x < -half() {
                lemma_wrap(x + modulus(), -1);
            }
        }
        let self_sign = self.is_negative();
        let rhs_sign = rhs.is_negative();
        let diff_sign = diff.is_negative();
        self_sign != rhs_sign && self_sign != diff_sign
    }

    /// Saturating subtraction (clamps to `MIN` or `MAX` on overflow).
    pub fn saturating_sub(self, rhs: Self) -> (r: Self)
        ensures
            r.sval() == saturate(self.sval() - rhs.sval()),
    {
        let diff = self.wrapping_sub(rhs);
        proof { self.lemma_bounds(); rhs.lemma_bounds(); lemma_wrap(self.sval() - rhs.sval(), 0); }
        if self.sub_overflows(rhs, diff) {
            if self.is_negative() { Self::min_value() } else { Self::max_value() }
        } else {
            diff
        }
    }

    /// Checked subtraction. Returns `None` on overflow.
    pub fn checked_sub(self, rhs: Self) -> (r: Option<Self>)
        ensures
            r is None <==> !in_range(self.sval() - rhs.sval()),
            r matches Some(v) ==> v.sval() == self.sval() - rhs.sval(),
    {
        let diff = self.wrapping_sub(rhs);
        proof { lemma_wrap(self.sval() - rhs.sval(), 0); }
        if self.sub_overflows(rhs, diff) { None } else { Some(diff) }
    }

    /// Returns the difference and a boolean indicating whether overflow occurred.
    pub fn overflowing_sub(self, rhs: Self) -> (r: (Self, bool))
        ensures
            r.0.sval() == wrap(self.sval() - rhs.sval()),
            r.1 == !in_range(self.sval() - rhs.sval()),
    {
        let diff = self.wrapping_sub(rhs);
        let overflow = self.sub_overflows(rhs, diff);
        (diff, overflow)
    }
}

/// Multiply-accumulate on limbs: `a * b + c + p` split into a low and a high limb.
fn mac(a: u64, b: u64, c: u64, p: u64) -> (r: (u64, u64))
    ensures
        r.0 as int + r.1 as int * b1() == a as int * b as int + c as int + p as int,
{
    proof {
        assert(a as int * b as int <= 0xFFFF_FFFF_FFFF_FFFEint * 0x1_0000_0000_0000_0000int + 1) by (nonlinear_arith)
            requires a <= 0xFFFF_FFFF_FFFF_FFFFu64, b <= 0xFFFF_FFFF_FFFF_FFFFu64;
    }
    let t = (a as u128) * (b as u128) + (c as u128) + (p as u128);
    let hi = t / 0x1_0000_0000_0000_0000u128;
    let lo = t % 0x1_0000_0000_0000_0000u128;
    (lo as u64, hi as u64)
}

/// The value of ten little-endian limbs.
pub open spec fn limbs10_val(p: [u64; 10]) -> int {
    p[0] as int + p[1] as int * b1() + p[2] as int * b2() + p[3] as int * b3() + p[4] as int * b4()
        + (p[5] as int + p[6] as int * b1() + p[7] as int * b2() + p[8] as int * b3() + p[9] as int * b4()) * modulus()
}

/// A scalar times a five-limb number, distributed over the limbs.
proof fn lemma_row(x: int, c: [u64; 5])
    ensures
        x * limbs_val(c) == (x * c[0] as int) + (x * c[1] as int) * b1() + (x * c[2] as int) * b2()
            + (x * c[3] as int) * b3() + (x * c[4] as int) * b4(),
{
    let c0 = c[0] as int; let c1 = c[1] as int; let c2 = c[2] as int; let c3 = c[3] as int; let c4 = c[4] as int;
    assert(x * (c0 + c1 * b1() + c2 * b2() + c3 * b3() + c4 * b4()) == (x * c0) + (x * c1) * b1() + (x * c2) * b2()
        + (x * c3) * b3() + (x * c4) * b4()) by (nonlinear_arith);
}

/// Sum of all weighted partial products of two five-limb numbers.
pub open spec fn partial_products(a: [u64; 5], b: [u64; 5]) -> int {
    (a[0] as int * b[0] as int) * 1
        + (a[0] as int * b[1] as int) * 0x10000000000000000int
        + (a[0] as int * b[2] as int) * 0x100000000000000000000000000000000int
        + (a[0] as int * b[3] as int) * 0x1000000000000000000000000000000000000000000000000int
        + (a[0] as int * b[4] as int) * 0x10000000000000000000000000000000000000000000000000000000000000000int
        + (a[1] as int * b[0] as int) * 0x10000000000000000int
        + (a[1] as int * b[1] as int) * 0x100000000000000000000000000000000int
        + (a[1] as int * b[2] as int) * 0x1000000000000000000000000000000000000000000000000int
        + (a[1] as int * b[3] as int) * 0x10000000000000000000000000000000000000000000000000000000000000000int
        + (a[1] as int * b[4] as int) * 0x100000000000000000000000000000000000000000000000000000000000000000000000000000000int
        + (a[2] as int * b[0] as int) * 0x100000000000000000000000000000000int
        + (a[2] as int * b[1] as int) * 0x1000000000000000000000000000000000000000000000000int
        + (a[2] as int * b[2] as int) * 0x10000000000000000000000000000000000000000000000000000000000000000int
        + (a[2] as int * b[3] as int) * 0x100000000000000000000000000000000000000000000000000000000000000000000000000000000int
        + (a[2] as int * b[4] as int) * 0x1000000000000000000000000000000000000000000000000000000000000000000000000000000000000000000000000int
        + (a[3] as int * b[0] as int) * 0x1000000000000000000000000000000000000000000000000int
        + (a[3] as int * b[1] as int) * 0x10000000000000000000000000000000000000000000000000000000000000000int
        + (a[3] as int * b[2] as int) * 0x100000000000000000000000000000000000000000000000000000000000000000000000000000000int
        + (a[3] as int * b[3] as int) * 0x1000000000000000000000000000000000000000000000000000000000000000000000000000000000000000000000000int
        + (a[3] as int * b[4] as int) * 0x10000000000000000000000000000000000000000000000000000000000000000000000000000000000000000000000000000000000000000int
        + (a[4] as int * b[0] as int) * 0x10000000000000000000000000000000000000000000000000000000000000000int
        + (a[4] as int * b[1] as int) * 0x100000000000000000000000000000000000000000000000000000000000000000000000000000000int
        + (a[4] as int * b[2] as int) * 0x1000000000000000000000000000000000000000000000000000000000000000000000000000000000000000000000000int
        + (a[4] as int * b[3] as int) * 0x10000000000000000000000000000000000000000000000000000000000000000000000000000000000000000000000000000000000000000int
        + (a[4] as int * b[4] as int) * 0x100000000000000000000000000000000000000000000000000000000000000000000000000000000000000000000000000000000000000000000000000000000int
}

/// Expansion of a product of two five-limb numbers into partial products.
proof fn lemma_product_expansion(a: [u64; 5], b: [u64; 5])
    ensures
        limbs_val(a) * limbs_val(b) == partial_products(a, b),
{
    let v = limbs_val(b);
    let a0 = a[0] as int; let a1 = a[1] as int; let a2 = a[2] as int; let a3 = a[3] as int; let a4 = a[4] as int;
    assert((a0 + a1 * b1() + a2 * b2() + a3 * b3() + a4 * b4()) * v == a0 * v + (a1 * v) * b1() + (a2 * v) * b2()
        + (a3 * v) * b3() + (a4 * v) * b4()) by (nonlinear_arith);
    lemma_row(a0, b);
    lemma_row(a1, b);
    lemma_row(a2, b);
    lemma_row(a3, b);
    lemma_row(a4, b);
}

/// Full 640-bit product of two unsigned 320-bit numbers (schoolbook).
fn mul_full(a: [u64; 5], b: [u64; 5]) -> (r: [u64; 10])
    ensures
        limbs10_val(r) == limbs_val(a) * limbs_val(b),
{

    let (p0_0, c0_0) = mac(a[0], b[0], 0u64, 0u64);
    let (p0_1, c0_1) = mac(a[0], b[1], c0_0, 0u64);
    let (p0_2, c0_2) = mac(a[0], b[2], c0_1, 0u64);
    let (p0_3, c0_3) = mac(a[0], b[3], c0_2, 0u64);
    let (p0_4, c0_4) = mac(a[0], b[4], c0_3, 0u64);
    let (p1_0, c1_0) = mac(a[1], b[0], 0u64, p0_1);
    let (p1_1, c1_1) = mac(a[1], b[1], c1_0, p0_2);
    let (p1_2, c1_2) = mac(a[1], b[2], c1_1, p0_3);
    let (p1_3, c1_3) = mac(a[1], b[3], c1_2, p0_4);
    let (p1_4, c1_4) = mac(a[1], b[4], c1_3, c0_4);
    let (p2_0, c2_0) = mac(a[2], b[0], 0u64, p1_1);
    let (p2_1, c2_1) = mac(a[2], b[1], c2_0, p1_2);
    let (p2_2, c2_2) = mac(a[2], b[2], c2_1, p1_3);
    let (p2_3, c2_3) = mac(a[2], b[3], c2_2, p1_4);
    let (p2_4, c2_4) = mac(a[2], b[4], c2_3, c1_4);
    let (p3_0, c3_0) = mac(a[3], b[0], 0u64, p2_1);
    let (p3_1, c3_1) = mac(a[3], b[1], c3_0, p2_2);
    let (p3_2, c3_2) = mac(a[3], b[2], c3_1, p2_3);
    let (p3_3, c3_3) = mac(a[3], b[3], c3_2, p2_4);
    let (p3_4, c3_4) = mac(a[3], b[4], c3_3, c2_4);
    let (p4_0, c4_0) = mac(a[4], b[0], 0u64, p3_1);
    let (p4_1, c4_1) = mac(a[4], b[1], c4_0, p3_2);
    let (p4_2, c4_2) = mac(a[4], b[2], c4_1, p3_3);
    let (p4_3, c4_3) = mac(a[4], b[3], c4_2, p3_4);
    let (p4_4, c4_4) = mac(a[4], b[4], c4_3, c3_4);

    proof { lemma_product_expansion(a, b); }

    [p0_0, p1_0, p2_0, p3_0, p4_0, p4_1, p4_2, p4_3, p4_4, c4_4]
}

impl DtBig {
    /// Unsigned comparison of the raw limbs (the values read as unsigned numbers).
    fn unsigned_less_than(self, other: Self) -> (r: bool)
        ensures
            r == (self.uval() < other.uval()),
    {
        let a = self.num;
        let b = other.num;
        if a[4] != b[4] {
            return a[4] < b[4];
        }
        if a[3] != b[3] {
            return a[3] < b[3];
        }
        if a[2] != b[2] {
            return a[2] < b[2];
        }
        if a[1] != b[1] {
            return a[1] < b[1];
        }
        a[0] < b[0]
    }

    /// Three-way comparison of the signed values.
    pub fn cmp(self, other: Self) -> (r: core::cmp::Ordering)
        ensures
            (r == core::cmp::Ordering::Less) == (self.sval() < other.sval()),
            (r == core::cmp::Ordering::Equal) == (self.sval() == other.sval()),
            (r == core::cmp::Ordering::Greater) == (self.sval() > other.sval()),
    {
        proof { self.lemma_bounds(); other.lemma_bounds(); }
        let a_neg = self.is_negative();
        let b_neg = other.is_negative();
        if a_neg && !b_neg {
            return core::cmp::Ordering::Less;
        }
        if !a_neg && b_neg {
            return core::cmp::Ordering::Greater;
        }
        if self.unsigned_less_than(other) {
            core::cmp::Ordering::Less
        } else if other.unsigned_less_than(self) {
            core::cmp::Ordering::Greater
        } else {
            core::cmp::Ordering::Equal
        }
    }

    /// `self >= other` on the signed values.
    pub fn ge(self, other: Self) -> (r: bool)
        ensures
            r == (self.sval() >= other.sval()),
    {
        match self.cmp(other) {
            core::cmp::Ordering::Less => false,
            _ => true,
        }
    }
}


/// Product of two values given with offsets.
proof fn lemma_mul_offsets(a: int, b: int, ka: int, kb: int, m: int)
    ensures
        (a + ka * m) * (b + kb * m) == a * b + (ka * b + kb * a + ka * kb * m) * m,
{
    let x = a + ka * m;
    let y = b + kb * m;
    lemma_mul_is_distributive_add_other_way(y, a, ka * m);
    lemma_mul_is_distributive_add(a, b, kb * m);
    lemma_mul_is_distributive_add(ka * m, b, kb * m);
    lemma_mul_is_associative(a, kb, m);
    lemma_mul_is_associative(ka, m, b);
    lemma_mul_is_commutative(m, b);
    lemma_mul_is_associative(ka, b, m);
    lemma_mul_is_associative(ka * m, kb, m);
    lemma_mul_is_associative(ka, m, kb);
    lemma_mul_is_commutative(m, kb);
    lemma_mul_is_associative(ka, kb, m);
    lemma_mul_is_commutative(a, kb);
    lemma_mul_is_distributive_add_other_way(m, ka * b, kb * a);
    lemma_mul_is_distributive_add_other_way(m, ka * b + kb * a, ka * kb * m);
}

/// The product of two values is the product of their magnitudes, signed.
proof fn lemma_mul_signs(a: int, b: int)
    ensures
        (if a < 0 { -a } else { a }) * (if b < 0 { -b } else { b }) >= 0,
        (a < 0) != (b < 0) ==> a * b == -((if a < 0 { -a } else { a }) * (if b < 0 { -b } else { b })),
        (a < 0) == (b < 0) ==> a * b == (if a < 0 { -a } else { a }) * (if b < 0 { -b } else { b }),
{
    let x = if a < 0 { -a } else { a };
    let y = if b < 0 { -b } else { b };
    assert(x * y >= 0) by (nonlinear_arith) requires x >= 0, y >= 0;
    if a < 0 && b >= 0 {
        assert(a * b == -(x * y)) by (nonlinear_arith) requires x == -a, y == b;
    } else if a >= 0 && b < 0 {
        assert(a * b == -(x * y)) by (nonlinear_arith) requires x == a, y == -b;
    } else if a < 0 && b < 0 {
        assert(a * b == x * y) by (nonlinear_arith) requires x == -a, y == -b;
    }
}

/// `wrap(y)` differs from `y` by a multiple of `2^320`.
pub proof fn lemma_wrap_offset(y: int) -> (k: int)
    ensures
        wrap(y) == y + k * modulus(),
{
    lemma_fundamental_div_mod(y, modulus());
    lemma_mod_bound(y, modulus());
    if y % modulus() < half() {
        -(y / modulus())
    } else {
        -(y / modulus()) - 1
    }
}

/// `wrap` of congruent values agree.
pub proof fn lemma_wrap_congruent(x: int, y: int, k: int)
    requires
        x == y + k * modulus(),
    ensures
        wrap(x) == wrap(y),
{
    lemma_wrap(y, k);
}

/// Shifts five limbs left by one bit, returning the bit shifted out.
fn shl1(n: [u64; 5], bit_in: u64) -> (r: ([u64; 5], u64))
    requires
        bit_in <= 1,
    ensures
        limbs_val(r.0) + r.1 as int * modulus() == 2 * limbs_val(n) + bit_in as int,
        r.1 <= 1,
{
    let (l0, c0) = dbl_limb(n[0], bit_in);
    let (l1, c1) = dbl_limb(n[1], c0);
    let (l2, c2) = dbl_limb(n[2], c1);
    let (l3, c3) = dbl_limb(n[3], c2);
    let (l4, c4) = dbl_limb(n[4], c3);
    ([l0, l1, l2, l3, l4], c4)
}

/// Doubles a limb and adds an incoming bit.
fn dbl_limb(x: u64, c: u64) -> (r: (u64, u64))
    requires
        c <= 1,
    ensures
        r.0 as int + r.1 as int * b1() == 2 * x as int + c as int,
        r.1 <= 1,
{
    if x >= 0x8000_0000_0000_0000u64 {
        (2 * (x - 0x8000_0000_0000_0000u64) + c, 1)
    } else {
        (2 * x + c, 0)
    }
}

/// `pow2(320)` is the modulus.
proof fn lemma_pow2_320()
    ensures
        pow2(320) == modulus(),
{
    lemma2_to64();
    lemma_pow2_adds(64, 64);
    lemma_pow2_adds(128, 64);
    lemma_pow2_adds(192, 64);
    lemma_pow2_adds(256, 64);
}

impl DtBig {
    /// Absolute value (wrapping at `MIN`). Its unsigned reading is always the
    /// magnitude of the signed value.
    pub fn wrapping_abs(self) -> (r: Self)
        ensures
            r.uval() == (if self.sval() < 0 { -self.sval() } else { self.sval() }),
            r.sval() == wrap(if self.sval() < 0 { -self.sval() } else { self.sval() }),
    {
        proof {
            self.lemma_bounds();
            lemma_wrap(self.sval(), 0);
            if self.sval() < 0 {
                lemma_small_mod((modulus() - self.uval()) as nat, modulus() as nat);
            }
        }
        if self.is_negative() { self.neg() } else { self }
    }

    /// Absolute value (clamps `MIN` to `MAX`).
    pub fn saturating_abs(self) -> (r: Self)
        ensures
            r.sval() == saturate(if self.sval() < 0 { -self.sval() } else { self.sval() }),
    {
        proof { self.lemma_bounds(); lemma_wrap(-self.sval(), 0); }
        if self.is_min() { Self::max_value() } else { self.wrapping_abs() }
    }

    /// Absolute value. Returns `None` if the value is `MIN`.
    pub fn checked_abs(self) -> (r: Option<Self>)
        ensures
            r is None <==> self.sval() == -half(),
            r matches Some(v) ==> v.sval() == (if self.sval() < 0 { -self.sval() } else { self.sval() }),
    {
        proof { self.lemma_bounds(); lemma_wrap(-self.sval(), 0); }
        if self.is_min() { None } else { Some(self.wrapping_abs()) }
    }

    /// Returns the absolute value and a boolean indicating whether overflow occurred.
    pub fn overflowing_abs(self) -> (r: (Self, bool))
        ensures
            r.1 == (self.sval() == -half()),
            r.0.sval() == (if r.1 { half() - 1 } else if self.sval() < 0 { -self.sval() } else { self.sval() }),
    {
        proof { self.lemma_bounds(); lemma_wrap(-self.sval(), 0); }
        if self.is_min() { (Self::max_value(), true) } else { (self.wrapping_abs(), false) }
    }

    /// The full unsigned product of the two raw values: its low 320 bits and
    /// whether any higher bit is set.
    fn unsigned_mul_with_overflow_info(self, rhs: Self) -> (r: (Self, bool))
        ensures
            r.0.uval() == (self.uval() * rhs.uval()) % modulus(),
            r.1 == (self.uval() * rhs.uval() >= modulus()),
    {
        let p = mul_full(self.num, rhs.num);
        let low = DtBig { num: [p[0], p[1], p[2], p[3], p[4]] };
        let high = DtBig { num: [p[5], p[6], p[7], p[8], p[9]] };
        proof {
            low.lemma_bounds();
            high.lemma_bounds();
            assert(self.uval() * rhs.uval() == high.uval() * modulus() + low.uval());
            lemma_fundamental_div_mod_converse(self.uval() * rhs.uval(), modulus(), high.uval(), low.uval());
        }
        let high_nonzero = !high.is_zero();
        proof {
            if high.uval() == 0 {
                assert(self.uval() * rhs.uval() < modulus());
            } else {
                assert(high.uval() >= 1);
                assert(high.uval() * modulus() >= modulus()) by (nonlinear_arith) requires high.uval() >= 1;
            }
        }
        (low, high_nonzero)
    }

    /// Wrapping multiplication (the low 320 bits of the full product).
    pub fn wrapping_mul(self, rhs: Self) -> (r: Self)
        ensures
            r.sval() == wrap(self.sval() * rhs.sval()),
            r.uval() == (self.uval() * rhs.uval()) % modulus(),
    {
        let (low, _) = self.unsigned_mul_with_overflow_info(rhs);
        proof {
            self.lemma_bounds();
            rhs.lemma_bounds();
            low.lemma_bounds();
            let m = modulus();
            let ka: int = if self.sval() < 0 { 1 } else { 0 };
            let kb: int = if rhs.sval() < 0 { 1 } else { 0 };
            let sa = self.sval();
            let sb = rhs.sval();
            lemma_mul_offsets(sa, sb, ka, kb, m);
            lemma_fundamental_div_mod(self.uval() * rhs.uval(), m);
            let q = (self.uval() * rhs.uval()) / m;
            lemma_wrap_of_uval(low.uval(), sa * sb, (ka * sb + kb * sa + ka * kb * m) - q);
        }
        low
    }

    /// Returns the product and a boolean indicating whether overflow occurred.
    pub fn overflowing_mul(self, rhs: Self) -> (r: (Self, bool))
        ensures
            r.0.sval() == wrap(self.sval() * rhs.sval()),
            r.1 == !in_range(self.sval() * rhs.sval()),
    {
        proof { lemma_wrap(0, 0); }
        if self.is_zero() || rhs.is_zero() {
            proof {
                assert(self.sval() * rhs.sval() == 0) by (nonlinear_arith) requires self.sval() == 0 || rhs.sval() == 0;
            }
            return (Self::zero(), false);
        }
        let self_neg = self.is_negative();
        let rhs_neg = rhs.is_negative();
        let result_neg = self_neg != rhs_neg;

        let abs_a = self.wrapping_abs();
        let abs_b = rhs.wrapping_abs();

        let (low_abs, high_nonzero) = abs_a.unsigned_mul_with_overflow_info(abs_b);
        let low_top = low_abs.is_negative();
        let overflow = if high_nonzero {
            true
        } else if result_neg {
            low_top && !low_abs.is_min()
        } else {
            low_top
        };
        let product = if result_neg { low_abs.neg() } else { low_abs };
        proof {
            let sa = self.sval();
            let sb = rhs.sval();
            let m = modulus();
            let mag = abs_a.uval() * abs_b.uval();
            low_abs.lemma_bounds();
            lemma_mul_signs(sa, sb);
            lemma_fundamental_div_mod(mag, m);
            let q = mag / m;
            assert(mag == q * m + low_abs.uval());
            if result_neg {
                lemma_mod_bound(m - low_abs.uval(), m);
                lemma_fundamental_div_mod(m - low_abs.uval(), m);
                let q2 = (m - low_abs.uval()) / m;
                lemma_wrap_of_uval(product.uval(), sa * sb, q + 1 - q2);
            } else {
                lemma_wrap_of_uval(product.uval(), sa * sb, -q);
            }
            if !high_nonzero {
                lemma_small_mod(mag as nat, m as nat);
            }
        }
        (product, overflow)
    }

    /// Saturating multiplication (clamps to `MIN` or `MAX` on overflow).
    pub fn saturating_mul(self, rhs: Self) -> (r: Self)
        ensures
            r.sval() == saturate(self.sval() * rhs.sval()),
    {
        let (product, overflow) = self.overflowing_mul(rhs);
        proof { lemma_wrap(self.sval() * rhs.sval(), 0); }
        if overflow {
            let result_neg = self.is_negative() != rhs.is_negative();
            proof {
                let sa = self.sval();
                let sb = rhs.sval();
                assert((sa < 0) != (sb < 0) ==> sa * sb <= 0) by (nonlinear_arith);
                assert((sa < 0) == (sb < 0) ==> sa * sb >= 0) by (nonlinear_arith);
            }
            if result_neg { Self::min_value() } else { Self::max_value() }
        } else {
            product
        }
    }

    /// Checked multiplication. Returns `None` on overflow.
    pub fn checked_mul(self, rhs: Self) -> (r: Option<Self>)
        ensures
            r is None <==> !in_range(self.sval() * rhs.sval()),
            r matches Some(v) ==> v.sval() == self.sval() * rhs.sval(),
    {
        let (product, overflow) = self.overflowing_mul(rhs);
        proof { lemma_wrap(self.sval() * rhs.sval(), 0); }
        if overflow { None } else { Some(product) }
    }
}


/// Subtracts `b` from the 321-bit number `top * 2^320 + a`, known to be at
/// least `b` and below `2^320 + b`.
fn sub_limbs(a: [u64; 5], top: u64, b: [u64; 5]) -> (r: [u64; 5])
    requires
        top <= 1,
        limbs_val(b) <= top as int * modulus() + limbs_val(a),
        top as int * modulus() + limbs_val(a) - limbs_val(b) < modulus(),
    ensures
        limbs_val(r) == top as int * modulus() + limbs_val(a) - limbs_val(b),
{
    let nb = DtBig { num: b }.neg();
    let (s, _c) = add_limbs(a, nb.num);
    proof {
        let m = modulus();
        let ub = limbs_val(b);
        DtBig { num: b }.lemma_bounds();
        DtBig { num: s }.lemma_bounds();
        if ub == 0 {
            lemma_mod_self_0(m);
            assert(top == 0);
        } else {
            lemma_small_mod((m - ub) as nat, m as nat);
        }
    }
    s
}

impl DtBig {
    /// Unsigned long division of the raw values: quotient and remainder.
    fn unsigned_divmod(self, rhs: Self) -> (r: (Self, Self))
        requires
            rhs.uval() > 0,
        ensures
            r.0.uval() == self.uval() / rhs.uval(),
            r.1.uval() == self.uval() % rhs.uval(),
    {
        let ghost ua = self.uval();
        let ghost ub = rhs.uval();
        let mut a_cur = self.num;
        let mut rem = [0u64; 5];
        let mut quo = [0u64; 5];
        let ghost mut prefix: int = 0;
        let ghost mut pw: int = 1;
        let mut i: u32 = 0;
        proof {
            self.lemma_bounds();
            rhs.lemma_bounds();
            lemma_pow2_320();
            lemma2_to64();
        }
        while i < 320
            invariant
                0 <= i <= 320,
                pw == pow2(i as nat),
                ua == self.uval(),
                ub == rhs.uval(),
                0 < ub < modulus(),
                ua * pw == prefix * modulus() + limbs_val(a_cur),
                0 <= prefix < pw,
                prefix == limbs_val(quo) * ub + limbs_val(rem),
                0 <= limbs_val(rem) < ub,
                pow2(320) == modulus(),
            decreases 320 - i,
        {
            proof {
                DtBig { num: a_cur }.lemma_bounds();
                DtBig { num: rem }.lemma_bounds();
                DtBig { num: quo }.lemma_bounds();
                lemma_pow2_unfold((i + 1) as nat);
                if i + 1 < 320 {
                    lemma_pow2_strictly_increases((i + 1) as nat, 320);
                }
            }
            let ghost rem_old = limbs_val(rem);
            let ghost quo_old = limbs_val(quo);
            let (a_next, t) = shl1(a_cur, 0);
            let (r2, rc) = shl1(rem, t);
            let ghost prefix2 = 2 * prefix + t as int;
            let ghost r_true = rc as int * modulus() + limbs_val(r2);
            let big = rc == 1 || !(DtBig { num: r2 }).unsigned_less_than(rhs);
            let qbit: u64 = if big { 1 } else { 0 };
            proof {
                DtBig { num: r2 }.lemma_bounds();
            }
            if big {
                rem = sub_limbs(r2, rc, rhs.num);
                proof { assert(limbs_val(rem) == r_true - ub); }
            } else {
                rem = r2;
                proof { assert(rc == 0); assert(limbs_val(rem) == r_true); }
            }
            let (q2, qc) = shl1(quo, qbit);
            proof {
                assert(r_true == 2 * rem_old + t as int);
                assert(prefix2 == 2 * quo_old * ub + r_true) by (nonlinear_arith)
                    requires prefix2 == 2 * prefix + t as int, prefix == quo_old * ub + rem_old, r_true == 2 * rem_old + t as int;
                assert(limbs_val(rem) == r_true - qbit as int * ub);
                assert(limbs_val(q2) + qc as int * modulus() == 2 * limbs_val(quo) + qbit as int);
                assert(prefix2 == (2 * limbs_val(quo) + qbit as int) * ub + limbs_val(rem)) by (nonlinear_arith)
                    requires prefix2 == 2 * limbs_val(quo) * ub + r_true,
                        limbs_val(rem) == r_true - qbit as int * ub;
                // the quotient never overflows since it is at most the prefix
                assert((2 * limbs_val(quo) + qbit as int) <= prefix2) by (nonlinear_arith)
                    requires prefix2 == (2 * limbs_val(quo) + qbit as int) * ub + limbs_val(rem), ub >= 1,
                        limbs_val(rem) >= 0, 2 * limbs_val(quo) + qbit as int >= 0;
                assert(qc == 0);
                assert(ua * (2 * pw) == prefix2 * modulus() + limbs_val(a_next)) by (nonlinear_arith)
                    requires ua * pw == prefix * modulus() + limbs_val(a_cur),
                        limbs_val(a_next) + t as int * modulus() == 2 * limbs_val(a_cur),
                        prefix2 == 2 * prefix + t as int;
            }
            a_cur = a_next;
            quo = q2;
            proof { prefix = prefix2; pw = 2 * pw; }
            i = i + 1;
        }
        proof {
            DtBig { num: a_cur }.lemma_bounds();
            let m = modulus();
            assert(prefix == ua) by (nonlinear_arith)
                requires ua * m == prefix * m + limbs_val(a_cur), 0 <= limbs_val(a_cur) < m, m > 0;
            lemma_fundamental_div_mod_converse(ua, ub, limbs_val(quo), limbs_val(rem));
        }
        (DtBig { num: quo }, DtBig { num: rem })
    }

    /// Unsigned wrapping division of the raw values; zero when dividing by zero.
    pub fn unsigned_wrapping_div(self, rhs: Self) -> (r: Self)
        ensures
            rhs.uval() == 0 ==> r.uval() == 0,
            rhs.uval() != 0 ==> r.uval() == self.uval() / rhs.uval(),
    {
        proof { rhs.lemma_bounds(); }
        if rhs.is_zero() {
            return Self::zero();
        }
        let (q, _) = self.unsigned_divmod(rhs);
        q
    }
}


/// Basic facts on truncating division: the quotient's magnitude is the
/// quotient of the magnitudes, and the remainder has the dividend's sign
/// and is smaller in magnitude than the divisor.
pub proof fn lemma_trunc_div(x: int, d: int)
    requires
        d != 0,
    ensures
        x == d * tdiv(x, d) + trem(x, d),
        (if tdiv(x, d) < 0 { -tdiv(x, d) } else { tdiv(x, d) })
            == (if x < 0 { -x } else { x }) / (if d < 0 { -d } else { d }),
        ((x < 0) != (d < 0)) ==> tdiv(x, d) <= 0,
        ((x < 0) == (d < 0)) ==> tdiv(x, d) >= 0,
        x >= 0 ==> 0 <= trem(x, d) < (if d < 0 { -d } else { d }),
        x < 0 ==> -(if d < 0 { -d } else { d }) < trem(x, d) <= 0,
{
    let ax = if x < 0 { -x } else { x };
    let ad = if d < 0 { -d } else { d };
    lemma_fundamental_div_mod(ax, ad);
    lemma_div_pos_is_pos(ax, ad);
    let q = ax / ad;
    if x >= 0 && d > 0 {
    } else if x < 0 && d < 0 {
        assert(d * q == -(ad * q)) by (nonlinear_arith) requires d == -ad;
    } else if x < 0 {
        assert(d * (-q) == -(ad * q)) by (nonlinear_arith) requires d == ad;
    } else {
        assert(d * (-q) == ad * q) by (nonlinear_arith) requires d == -ad;
    }
}

/// The converse of the division identity for any nonzero divisor.
pub proof fn lemma_euclid_converse(x: int, d: int, q: int, r: int)
    requires
        d != 0,
        0 <= r < (if d < 0 { -d } else { d }),
        x == q * d + r,
    ensures
        x / d == q,
        x % d == r,
{
    if d > 0 {
        lemma_fundamental_div_mod_converse(x, d, q, r);
    } else {
        assert((-q) * (-d) == q * d) by (nonlinear_arith);
        lemma_fundamental_div_mod_converse(x, -d, -q, r);
        assert(x / d == -(x / (-d)) && x % d == x % (-d)) by (nonlinear_arith) requires d < 0;
    }
}

/// Euclidean division from truncating division.
pub proof fn lemma_euclid_from_trunc(x: int, d: int)
    requires
        d != 0,
    ensures
        x / d == (if trem(x, d) < 0 { if d < 0 { tdiv(x, d) + 1 } else { tdiv(x, d) - 1 } } else { tdiv(x, d) }),
        x % d == (if trem(x, d) < 0 { if d < 0 { trem(x, d) - d } else { trem(x, d) + d } } else { trem(x, d) }),
{
    lemma_trunc_div(x, d);
    let q = tdiv(x, d);
    let r = trem(x, d);
    lemma_mul_is_commutative(d, q);
    if r < 0 {
        if d < 0 {
            assert(x == d * (q + 1) + (r - d)) by (nonlinear_arith) requires x == d * q + r;
            lemma_euclid_converse(x, d, q + 1, r - d);
        } else {
            assert(x == d * (q - 1) + (r + d)) by (nonlinear_arith) requires x == d * q + r;
            lemma_euclid_converse(x, d, q - 1, r + d);
        }
    } else {
        lemma_euclid_converse(x, d, q, r);
    }
}

impl DtBig {
    /// Wrapping division (truncates toward zero); zero when dividing by zero.
    pub fn wrapping_div(self, rhs: Self) -> (r: Self)
        ensures
            rhs.sval() == 0 ==> r.sval() == 0,
            rhs.sval() != 0 ==> r.sval() == wrap(tdiv(self.sval(), rhs.sval())),
    {
        if rhs.is_zero() {
            return Self::zero();
        }
        let a_neg = self.is_negative();
        let b_neg = rhs.is_negative();
        let a = self.wrapping_abs();
        let b = rhs.wrapping_abs();
        let q = a.unsigned_wrapping_div(b);
        let result_neg = a_neg != b_neg;
        proof {
            let sa = self.sval();
            let sb = rhs.sval();
            lemma_trunc_div(sa, sb);
            q.lemma_bounds();
            let t = tdiv(sa, sb);
            if result_neg {
                assert(t <= 0);
                assert(-t == q.uval());
                lemma_wrap_of_uval(q.uval(), -t, 0);
                let k = lemma_wrap_offset(-t);
                lemma_wrap_congruent(-q.sval(), t, 0 - (if q.uval() >= half() { -1int } else { 0 }) );
            } else {
                assert(t == q.uval());
                lemma_wrap_of_uval(q.uval(), t, 0);
            }
        }
        if result_neg { q.neg() } else { q }
    }

    /// Saturating division (clamps to `MIN`/`MAX` on divide-by-zero or overflow).
    pub fn saturating_div(self, rhs: Self) -> (r: Self)
        ensures
            rhs.sval() == 0 ==> r.sval() == (if self.sval() < 0 { -half() } else { half() - 1 }),
            rhs.sval() != 0 ==> r.sval() == saturate(tdiv(self.sval(), rhs.sval())),
    {
        if rhs.is_zero() {
            return if self.is_negative() { Self::min_value() } else { Self::max_value() };
        }
        proof {
            lemma_trunc_div(self.sval(), rhs.sval());
            self.lemma_bounds();
            rhs.lemma_bounds();
            let sa = self.sval();
            let sb = rhs.sval();
            let ax = if sa < 0 { -sa } else { sa };
            let ad = if sb < 0 { -sb } else { sb };
            lemma_div_is_ordered_by_denominator(ax, 1, ad);
            lemma_div_basics(ax);
            if ad >= 2 {
                lemma_div_is_ordered_by_denominator(ax, 2, ad);
            }
            lemma_wrap(tdiv(sa, sb), 0);
        }
        if self.is_min() && rhs.is_neg_one() {
            return Self::max_value();
        }
        self.wrapping_div(rhs)
    }

    /// Checked division. Returns `None` on divide-by-zero or `MIN / -1` overflow.
    pub fn checked_div(self, rhs: Self) -> (r: Option<Self>)
        ensures
            r is None <==> (rhs.sval() == 0 || !in_range(tdiv(self.sval(), rhs.sval()))),
            r matches Some(v) ==> v.sval() == tdiv(self.sval(), rhs.sval()),
    {
        if rhs.is_zero() {
            return None;
        }
        proof {
            lemma_trunc_div(self.sval(), rhs.sval());
            self.lemma_bounds();
            rhs.lemma_bounds();
            let sa = self.sval();
            let sb = rhs.sval();
            let ax = if sa < 0 { -sa } else { sa };
            let ad = if sb < 0 { -sb } else { sb };
            lemma_div_is_ordered_by_denominator(ax, 1, ad);
            lemma_div_basics(ax);
            if ad >= 2 {
                lemma_div_is_ordered_by_denominator(ax, 2, ad);
            }
            lemma_wrap(tdiv(sa, sb), 0);
        }
        if self.is_min() && rhs.is_neg_one() {
            None
        } else {
            Some(self.wrapping_div(rhs))
        }
    }

    /// Returns the quotient and whether an error (divide-by-zero or overflow) occurred.
    pub fn overflowing_div(self, rhs: Self) -> (r: (Self, bool))
        ensures
            rhs.sval() == 0 ==> r.0.sval() == 0 && r.1,
            rhs.sval() != 0 ==> r.1 == !in_range(tdiv(self.sval(), rhs.sval())),
            rhs.sval() != 0 ==> r.0.sval() == wrap(tdiv(self.sval(), rhs.sval())),
    {
        if rhs.is_zero() {
            return (Self::zero(), true);
        }
        proof {
            lemma_trunc_div(self.sval(), rhs.sval());
            self.lemma_bounds();
            rhs.lemma_bounds();
            let sa = self.sval();
            let sb = rhs.sval();
            let ax = if sa < 0 { -sa } else { sa };
            let ad = if sb < 0 { -sb } else { sb };
            lemma_div_is_ordered_by_denominator(ax, 1, ad);
            lemma_div_basics(ax);
            if ad >= 2 {
                lemma_div_is_ordered_by_denominator(ax, 2, ad);
            }
            lemma_wrap(tdiv(sa, sb), 0);
            lemma_wrap(tdiv(sa, sb), -1);
        }
        if self.is_min() && rhs.is_neg_one() {
            proof { lemma_wrap(half(), -1); }
            (Self::min_value(), true)
        } else {
            (self.wrapping_div(rhs), false)
        }
    }

    /// Wrapping remainder (same sign as the dividend); zero when dividing by zero.
    pub fn wrapping_rem(self, rhs: Self) -> (r: Self)
        ensures
            rhs.sval() == 0 ==> r.sval() == 0,
            rhs.sval() != 0 ==> r.sval() == trem(self.sval(), rhs.sval()),
    {
        if rhs.is_zero() {
            return Self::zero();
        }
        let q = self.wrapping_div(rhs);
        let p = q.wrapping_mul(rhs);
        let r = self.wrapping_sub(p);
        proof {
            let sa = self.sval();
            let sb = rhs.sval();
            let t = tdiv(sa, sb);
            lemma_trunc_div(sa, sb);
            let k1 = lemma_wrap_offset(t);
            let k2 = lemma_wrap_offset(q.sval() * sb);
            let k3 = lemma_wrap_offset(sa - p.sval());
            assert(q.sval() * sb == t * sb + (k1 * sb) * modulus()) by (nonlinear_arith)
                requires q.sval() == t + k1 * modulus();
            assert(r.sval() == trem(sa, sb) + (k3 - k2 - k1 * sb) * modulus()) by (nonlinear_arith)
                requires r.sval() == sa - p.sval() + k3 * modulus(),
                    p.sval() == q.sval() * sb + k2 * modulus(),
                    q.sval() * sb == t * sb + (k1 * sb) * modulus(),
                    trem(sa, sb) == sa - sb * t;
            self.lemma_bounds();
            rhs.lemma_bounds();
            lemma_wrap_congruent(r.sval(), trem(sa, sb), k3 - k2 - k1 * sb);
            lemma_wrap(r.sval(), 0);
            lemma_wrap(trem(sa, sb), 0);
        }
        r
    }

    /// Saturating remainder (no overflow is possible; zero on divide-by-zero).
    pub fn saturating_rem(self, rhs: Self) -> (r: Self)
        ensures
            rhs.sval() == 0 ==> r.sval() == 0,
            rhs.sval() != 0 ==> r.sval() == trem(self.sval(), rhs.sval()),
    {
        if rhs.is_zero() {
            return Self::zero();
        }
        self.wrapping_rem(rhs)
    }

    /// Checked remainder. Returns `None` on divide-by-zero.
    pub fn checked_rem(self, rhs: Self) -> (r: Option<Self>)
        ensures
            r is None <==> rhs.sval() == 0,
            r matches Some(v) ==> v.sval() == trem(self.sval(), rhs.sval()),
    {
        if rhs.is_zero() { None } else { Some(self.wrapping_rem(rhs)) }
    }

    /// Returns the remainder and whether divide-by-zero occurred.
    pub fn overflowing_rem(self, rhs: Self) -> (r: (Self, bool))
        ensures
            r.1 == (rhs.sval() == 0),
            r.1 ==> r.0.sval() == 0,
            !r.1 ==> r.0.sval() == trem(self.sval(), rhs.sval()),
    {
        if rhs.is_zero() { (Self::zero(), true) } else { (self.wrapping_rem(rhs), false) }
    }

    /// Euclidean quotient step shared by the Euclidean operations.
    fn euclid_div(self, rhs: Self) -> (r: Self)
        requires
            rhs.sval() != 0,
        ensures
            r.sval() == wrap(self.sval() / rhs.sval()),
    {
        let q = self.wrapping_div(rhs);
        let r = self.wrapping_rem(rhs);
        proof {
            lemma_euclid_from_trunc(self.sval(), rhs.sval());
            let t = tdiv(self.sval(), rhs.sval());
            let k = lemma_wrap_offset(t);
            lemma_wrap_congruent(q.sval() + 1, t + 1, k);
            lemma_wrap_congruent(q.sval() - 1, t - 1, k);
            lemma_wrap_congruent(q.sval(), t, k);
            lemma_wrap(q.sval(), 0);
        }
        if r.is_negative() {
            if rhs.is_negative() {
                q.wrapping_add(Self::one())
            } else {
                q.wrapping_sub(Self::one())
            }
        } else {
            q
        }
    }

    /// Euclidean remainder step shared by the Euclidean operations.
    fn euclid_rem(self, rhs: Self) -> (r: Self)
        requires
            rhs.sval() != 0,
        ensures
            r.sval() == self.sval() % rhs.sval(),
    {
        let r = self.wrapping_rem(rhs);
        proof {
            lemma_euclid_from_trunc(self.sval(), rhs.sval());
            lemma_trunc_div(self.sval(), rhs.sval());
            rhs.lemma_bounds();
            lemma_wrap(r.sval() - rhs.sval(), 0);
            lemma_wrap(r.sval() + rhs.sval(), 0);
        }
        if r.is_negative() {
            if rhs.is_negative() {
                r.wrapping_sub(rhs)
            } else {
                r.wrapping_add(rhs)
            }
        } else {
            r
        }
    }

    /// Euclidean quotient `q` with `self = q * rhs + r` and `0 <= r < |rhs|`.
    pub fn div_euclid(self, rhs: Self) -> (r: Self)
        requires
            rhs.sval() != 0,
        ensures
            r.sval() == wrap(self.sval() / rhs.sval()),
    {
        self.euclid_div(rhs)
    }

    /// Euclidean remainder, always in `[0, |rhs|)`.
    pub fn rem_euclid(self, rhs: Self) -> (r: Self)
        requires
            rhs.sval() != 0,
        ensures
            r.sval() == self.sval() % rhs.sval(),
    {
        self.euclid_rem(rhs)
    }

    /// Wrapping Euclidean division (zero on divide-by-zero).
    pub fn wrapping_div_euclid(self, rhs: Self) -> (r: Self)
        ensures
            rhs.sval() == 0 ==> r.sval() == 0,
            rhs.sval() != 0 ==> r.sval() == wrap(self.sval() / rhs.sval()),
    {
        if rhs.is_zero() { Self::zero() } else { self.euclid_div(rhs) }
    }

    /// Wrapping Euclidean remainder (zero on divide-by-zero).
    pub fn wrapping_rem_euclid(self, rhs: Self) -> (r: Self)
        ensures
            rhs.sval() == 0 ==> r.sval() == 0,
            rhs.sval() != 0 ==> r.sval() == self.sval() % rhs.sval(),
    {
        if rhs.is_zero() { Self::zero() } else { self.euclid_rem(rhs) }
    }

    /// Checked Euclidean division. Returns `None` on division by zero.
    pub fn checked_div_euclid(self, rhs: Self) -> (r: Option<Self>)
        ensures
            r is None <==> rhs.sval() == 0,
            r matches Some(v) ==> v.sval() == wrap(self.sval() / rhs.sval()),
    {
        if rhs.is_zero() { None } else { Some(self.euclid_div(rhs)) }
    }

    /// Checked Euclidean remainder. Returns `None` on division by zero.
    pub fn checked_rem_euclid(self, rhs: Self) -> (r: Option<Self>)
        ensures
            r is None <==> rhs.sval() == 0,
            r matches Some(v) ==> v.sval() == self.sval() % rhs.sval(),
    {
        if rhs.is_zero() { None } else { Some(self.euclid_rem(rhs)) }
    }

    /// `true` when `self` is a multiple of `rhs` (only zero is a multiple of zero).
    pub fn is_multiple_of(self, rhs: Self) -> (r: bool)
        ensures
            rhs.sval() == 0 ==> r == (self.sval() == 0),
            rhs.sval() != 0 ==> r == (self.sval() % rhs.sval() == 0),
    {
        if rhs.is_zero() {
            return self.is_zero();
        }
        proof {
            lemma_euclid_from_trunc(self.sval(), rhs.sval());
            lemma_trunc_div(self.sval(), rhs.sval());
        }
        if self.is_zero() {
            proof { lemma_euclid_converse(0, rhs.sval(), 0, 0); }
            return true;
        }
        if rhs.is_neg_one() || rhs.eq(Self::one()) {
            proof {
                if rhs.sval() == 1 {
                    lemma_euclid_converse(self.sval(), 1, self.sval(), 0);
                } else {
                    lemma_euclid_converse(self.sval(), -1, -self.sval(), 0);
                }
            }
            return true;
        }
        self.wrapping_rem(rhs).is_zero()
    }
}


/// Floor division twice is floor division by the product (any sign of the dividend).
pub proof fn lemma_floor_div_twice(x: int, c: int, d: int)
    requires
        0 < c,
        0 < d,
    ensures
        (x / c) / d == x / (c * d),
{
    let q1 = x / c;
    let r1 = x % c;
    let q2 = q1 / d;
    let r2 = q1 % d;
    lemma_fundamental_div_mod(x, c);
    lemma_fundamental_div_mod(q1, d);
    assert(x == (c * d) * q2 + (c * r2 + r1)) by (nonlinear_arith)
        requires x == c * q1 + r1, q1 == d * q2 + r2;
    assert(0 <= c * r2 + r1 < c * d) by (nonlinear_arith)
        requires 0 <= r1 < c, 0 <= r2 < d, c > 0, d > 0;
    assert(c * d > 0) by (nonlinear_arith) requires c > 0, d > 0;
    lemma_mul_is_commutative(c * d, q2);
    lemma_fundamental_div_mod_converse(x, c * d, q2, c * r2 + r1);
}

/// Halves a limb, bringing in `hi` as its new top bit; returns the bit shifted out.
fn half_limb(x: u64, hi: u64) -> (r: (u64, u64))
    requires
        hi <= 1,
    ensures
        r.0 as int * 2 + r.1 as int == x as int + hi as int * b1(),
        r.1 <= 1,
{
    (x / 2 + hi * 0x8000_0000_0000_0000u64, x % 2)
}

impl DtBig {
    /// Arithmetic shift right by one bit (floor division by two).
    fn shr1(self) -> (r: Self)
        ensures
            r.sval() == self.sval() / 2,
    {
        let top: u64 = if self.is_negative() { 1 } else { 0 };
        let (l4, c4) = half_limb(self.num[4], top);
        let (l3, c3) = half_limb(self.num[3], c4);
        let (l2, c2) = half_limb(self.num[2], c3);
        let (l1, c1) = half_limb(self.num[1], c2);
        let (l0, c0) = half_limb(self.num[0], c1);
        let r = DtBig { num: [l0, l1, l2, l3, l4] };
        proof {
            self.lemma_bounds();
            r.lemma_bounds();
            assert(r.uval() * 2 + c0 as int == self.uval() + top as int * modulus());
            lemma_fundamental_div_mod_converse(self.sval(), 2, r.sval(), c0 as int);
        }
        r
    }

    /// Logical left shift (zero-filled); zero for shifts of 320 or more.
    pub fn wrapping_shl(self, rhs: u32) -> (r: Self)
        ensures
            rhs >= 320 ==> r.sval() == 0,
            rhs < 320 ==> r.uval() == (self.uval() * (pow2(rhs as nat) as int)) % modulus(),
            rhs < 320 ==> r.sval() == wrap(self.sval() * (pow2(rhs as nat) as int)),
    {
        if rhs >= 320 {
            return Self::zero();
        }
        let mut n = self.num;
        let mut k: u32 = 0;
        proof {
            self.lemma_bounds();
            lemma2_to64();
            lemma_small_mod(self.uval() as nat, modulus() as nat);
        }
        while k < rhs
            invariant
                k <= rhs < 320,
                limbs_val(n) == (self.uval() * (pow2(k as nat) as int)) % modulus(),
            decreases rhs - k,
        {
            let (n2, c) = shl1(n, 0);
            proof {
                let x = self.uval() * (pow2(k as nat) as int);
                lemma_pow2_unfold((k + 1) as nat);
                lemma_mul_is_associative(self.uval(), 2, (pow2(k as nat) as int));
                lemma_mul_is_commutative(self.uval(), 2);
                lemma_mul_is_associative(2, self.uval(), (pow2(k as nat) as int));
                assert(self.uval() * (pow2((k + 1) as nat) as int) == 2 * x);
                lemma_mul_mod_noop_right(2, x, modulus());
                DtBig { num: n2 }.lemma_bounds();
                lemma_fundamental_div_mod_converse(2 * limbs_val(n), modulus(), c as int, limbs_val(n2));
            }
            n = n2;
            k = k + 1;
        }
        let r = DtBig { num: n };
        proof {
            self.lemma_bounds();
            r.lemma_bounds();
            let m = modulus();
            let p = pow2(rhs as nat) as int;
            let ks: int = if self.sval() < 0 { 1 } else { 0 };
            lemma_fundamental_div_mod(self.uval() * p, m);
            assert(self.uval() * p == self.sval() * p + (ks * p) * m) by (nonlinear_arith)
                requires self.uval() == self.sval() + ks * m;
            lemma_wrap_of_uval(r.uval(), self.sval() * p, ks * p - (self.uval() * p) / m);
        }
        r
    }

    /// Arithmetic right shift (sign-extending): floor division by `2^rhs`.
    pub fn wrapping_shr(self, rhs: u32) -> (r: Self)
        ensures
            r.sval() == self.sval() / (pow2(rhs as nat) as int),
    {
        proof { lemma_pow2_pos(rhs as nat); self.lemma_bounds(); }
        if rhs >= 320 {
            proof {
                lemma_pow2_320();
                if rhs > 320 {
                    lemma_pow2_strictly_increases(320, rhs as nat);
                }
                let p = pow2(rhs as nat) as int;
                if self.sval() < 0 {
                    lemma_euclid_converse(self.sval(), p, -1, self.sval() + p);
                } else {
                    lemma_euclid_converse(self.sval(), p, 0, self.sval());
                }
            }
            return if self.is_negative() { Self::neg_one() } else { Self::zero() };
        }
        let mut n = self;
        let mut k: u32 = 0;
        proof {
            lemma2_to64();
            lemma_div_basics(self.sval());
        }
        while k < rhs
            invariant
                k <= rhs < 320,
                n.sval() == self.sval() / (pow2(k as nat) as int),
            decreases rhs - k,
        {
            let n2 = n.shr1();
            proof {
                lemma_pow2_unfold((k + 1) as nat);
                lemma_pow2_pos(k as nat);
                lemma_floor_div_twice(self.sval(), pow2(k as nat) as int, 2);
                lemma_mul_is_commutative(2, pow2(k as nat) as int);
            }
            n = n2;
            k = k + 1;
        }
        n
    }
}

/// Limb-wise bitwise AND of two limb arrays.
pub open spec fn and_limbs(a: [u64; 5], b: [u64; 5]) -> [u64; 5] {
    [a[0] & b[0], a[1] & b[1], a[2] & b[2], a[3] & b[3], a[4] & b[4]]
}

/// Limb-wise bitwise OR of two limb arrays.
pub open spec fn or_limbs(a: [u64; 5], b: [u64; 5]) -> [u64; 5] {
    [a[0] | b[0], a[1] | b[1], a[2] | b[2], a[3] | b[3], a[4] | b[4]]
}

/// Limb-wise bitwise XOR of two limb arrays.
pub open spec fn xor_limbs(a: [u64; 5], b: [u64; 5]) -> [u64; 5] {
    [a[0] ^ b[0], a[1] ^ b[1], a[2] ^ b[2], a[3] ^ b[3], a[4] ^ b[4]]
}

impl DtBig {
    /// Bitwise AND.
    pub fn bitand(self, rhs: Self) -> (r: Self)
        ensures
            r.limbs() == and_limbs(self.limbs(), rhs.limbs()),
    {
        let a = self.num;
        let b = rhs.num;
        DtBig { num: [a[0] & b[0], a[1] & b[1], a[2] & b[2], a[3] & b[3], a[4] & b[4]] }
    }

    /// Bitwise OR.
    pub fn bitor(self, rhs: Self) -> (r: Self)
        ensures
            r.limbs() == or_limbs(self.limbs(), rhs.limbs()),
    {
        let a = self.num;
        let b = rhs.num;
        DtBig { num: [a[0] | b[0], a[1] | b[1], a[2] | b[2], a[3] | b[3], a[4] | b[4]] }
    }

    /// Bitwise XOR.
    pub fn bitxor(self, rhs: Self) -> (r: Self)
        ensures
            r.limbs() == xor_limbs(self.limbs(), rhs.limbs()),
    {
        let a = self.num;
        let b = rhs.num;
        DtBig { num: [a[0] ^ b[0], a[1] ^ b[1], a[2] ^ b[2], a[3] ^ b[3], a[4] ^ b[4]] }
    }

    /// Bitwise NOT: in two's complement, `!x == -x - 1`.
    pub fn not(self) -> (r: Self)
        ensures
            r.sval() == -self.sval() - 1,
    {
        let a = self.num;
        let r = DtBig { num: [!a[0], !a[1], !a[2], !a[3], !a[4]] };
        proof {
            assert(forall|x: u64| #[trigger] (!x) == 0xFFFF_FFFF_FFFF_FFFFu64 - x) by (bit_vector);
            self.lemma_bounds();
            r.lemma_bounds();
        }
        r
    }

    /// Rotates the bits left by `rhs % 320` positions, combining the left
    /// shift with the (sign-extending) right shift by the complement.
    pub fn rotate_left(self, rhs: u32) -> (r: Self)
        ensures
            rhs % 320 == 0 ==> r == self,
            rhs % 320 != 0 ==> r.limbs() == or_limbs(
                self.wrapping_shl_spec((rhs % 320) as nat).limbs(),
                self.wrapping_shr_spec((320 - rhs % 320) as nat).limbs(),
            ),
    {
        let shift = rhs % 320;
        if shift == 0 {
            return self;
        }
        let high = self.wrapping_shl(shift);
        let low = self.wrapping_shr(320 - shift);
        proof {
            self.lemma_shl_spec(shift as nat, high);
            self.lemma_shr_spec((320 - shift) as nat, low);
        }
        Self::bitor(high, low)
    }

    /// Rotates the bits right by `rhs % 320` positions, combining the
    /// (sign-extending) right shift with the left shift by the complement.
    pub fn rotate_right(self, rhs: u32) -> (r: Self)
        ensures
            rhs % 320 == 0 ==> r == self,
            rhs % 320 != 0 ==> r.limbs() == or_limbs(
                self.wrapping_shl_spec((320 - rhs % 320) as nat).limbs(),
                self.wrapping_shr_spec((rhs % 320) as nat).limbs(),
            ),
    {
        let shift = rhs % 320;
        if shift == 0 {
            return self;
        }
        let low = self.wrapping_shr(shift);
        let high = self.wrapping_shl(320 - shift);
        proof {
            self.lemma_shl_spec((320 - shift) as nat, high);
            self.lemma_shr_spec(shift as nat, low);
        }
        Self::bitor(high, low)
    }

    /// The value `wrapping_shl` gives for a shift below 320.
    pub open spec fn wrapping_shl_spec(self, k: nat) -> Self {
        choose|r: Self| r.uval() == (self.uval() * (pow2(k) as int)) % modulus()
    }

    /// The value `wrapping_shr` gives.
    pub open spec fn wrapping_shr_spec(self, k: nat) -> Self {
        choose|r: Self| r.sval() == self.sval() / (pow2(k) as int)
    }

    /// The left-shift value is the one `wrapping_shl` computes.
    pub proof fn lemma_shl_spec(self, k: nat, r: Self)
        requires
            r.uval() == (self.uval() * (pow2(k) as int)) % modulus(),
        ensures
            self.wrapping_shl_spec(k) == r,
    {
        let c = self.wrapping_shl_spec(k);
        c.lemma_uval_injective(r);
    }

    /// The right-shift value is the one `wrapping_shr` computes.
    pub proof fn lemma_shr_spec(self, k: nat, r: Self)
        requires
            r.sval() == self.sval() / (pow2(k) as int),
        ensures
            self.wrapping_shr_spec(k) == r,
    {
        let c = self.wrapping_shr_spec(k);
        c.lemma_sval_injective(r);
    }

    /// The sign of the number: `1` if positive, `0` if zero, `-1` if negative.
    pub fn signum(self) -> (r: Self)
        ensures
            r.sval() == (if self.sval() > 0 { 1int } else if self.sval() == 0 { 0int } else { -1int }),
    {
        if self.is_zero() {
            Self::zero()
        } else if self.is_negative() {
            Self::neg_one()
        } else {
            Self::one()
        }
    }
}


impl DtBig {
    /// The `DtBig` whose value is `x` wrapped into range.
    pub open spec fn of_int(x: int) -> Self {
        choose|r: Self| r.sval() == wrap(x)
    }

    /// `of_int(x)` is the `DtBig` with value `wrap(x)`.
    pub proof fn lemma_of_int(x: int, r: Self)
        requires
            r.sval() == wrap(x),
        ensures
            Self::of_int(x) == r,
    {
        let c = Self::of_int(x);
        c.lemma_sval_injective(r);
    }

    /// The `DtBig` whose limbs are the bitwise combination given.
    pub open spec fn of_limbs(n: [u64; 5]) -> Self {
        choose|r: Self| r.limbs() == n
    }

    /// `of_limbs(n)` is the `DtBig` with limbs `n`.
    pub proof fn lemma_of_limbs(n: [u64; 5], r: Self)
        requires
            r.limbs() == n,
        ensures
            Self::of_limbs(n) == r,
    {
        let c = Self::of_limbs(n);
        c.lemma_uval_injective(r);
    }

    /// Creates a `DtBig` from a `u128`.
    pub fn from_u128(value: u128) -> (r: Self)
        ensures
            r.sval() == value as int,
    {
        let lo = (value % 0x1_0000_0000_0000_0000u128) as u64;
        let hi = (value / 0x1_0000_0000_0000_0000u128) as u64;
        let r = DtBig { num: [lo, hi, 0, 0, 0] };
        proof { r.lemma_bounds(); }
        r
    }

    /// Creates a `DtBig` from an `i128` (two's-complement sign extension).
    pub fn from_i128(value: i128) -> (r: Self)
        ensures
            r.sval() == value as int,
    {
        let m = crate::arith::abs_u128(value);
        let a = Self::from_u128(m);
        proof { lemma_wrap(-(m as int), 0); }
        if value < 0 { a.neg() } else { a }
    }

    /// Creates a `DtBig` from a `u64`.
    pub fn from_u64(value: u64) -> (r: Self)
        ensures
            r.sval() == value as int,
    {
        Self::from_u128(value as u128)
    }

    /// Creates a `DtBig` from an `i64`.
    pub fn from_i64(value: i64) -> (r: Self)
        ensures
            r.sval() == value as int,
    {
        Self::from_i128(value as i128)
    }

    /// Creates a `DtBig` from a `i8`.
    pub fn from_i8(value: i8) -> (r: Self)
        ensures
            r.sval() == value as int,
    {
        Self::from_i128(value as i128)
    }

    /// Creates a `DtBig` from a `i16`.
    pub fn from_i16(value: i16) -> (r: Self)
        ensures
            r.sval() == value as int,
    {
        Self::from_i128(value as i128)
    }

    /// Creates a `DtBig` from a `i32`.
    pub fn from_i32(value: i32) -> (r: Self)
        ensures
            r.sval() == value as int,
    {
        Self::from_i128(value as i128)
    }

    /// Creates a `DtBig` from a `u8`.
    pub fn from_u8(value: u8) -> (r: Self)
        ensures
            r.sval() == value as int,
    {
        Self::from_u128(value as u128)
    }

    /// Creates a `DtBig` from a `u16`.
    pub fn from_u16(value: u16) -> (r: Self)
        ensures
            r.sval() == value as int,
    {
        Self::from_u128(value as u128)
    }

    /// Creates a `DtBig` from a `u32`.
    pub fn from_u32(value: u32) -> (r: Self)
        ensures
            r.sval() == value as int,
    {
        Self::from_u128(value as u128)
    }

    /// Creates a `DtBig` from a `usize`.
    pub fn from_usize(value: usize) -> (r: Self)
        ensures
            r.sval() == value as int,
    {
        Self::from_u128(value as u128)
    }

    /// Creates a `DtBig` from a `isize`.
    pub fn from_isize(value: isize) -> (r: Self)
        ensures
            r.sval() == value as int,
    {
        Self::from_i128(value as i128)
    }

    /// The value as an `i128` when it fits.
    fn to_i128_checked(self) -> (r: Option<i128>)
        ensures
            r is Some <==> (i128::MIN <= self.sval() <= i128::MAX),
            r matches Some(v) ==> v as int == self.sval(),
    {
        let n = self.num;
        let low = n[0] as u128 + n[1] as u128 * 0x1_0000_0000_0000_0000u128;
        proof {
            self.lemma_bounds();
            assert(low as int == n[0] as int + n[1] as int * b1());
        }
        if n[2] == 0 && n[3] == 0 && n[4] == 0 {
            if n[1] < 0x8000_0000_0000_0000u64 {
                Some(low as i128)
            } else {
                None
            }
        } else if n[2] == u64::MAX && n[3] == u64::MAX && n[4] == u64::MAX {
            if n[1] >= 0x8000_0000_0000_0000u64 {
                let mag = (u128::MAX - low) + 1;
                Some(crate::arith::signed_from_mag(true, mag))
            } else {
                None
            }
        } else {
            None
        }
    }

    /// The value as a `u128` when it fits.
    fn to_u128_checked(self) -> (r: Option<u128>)
        ensures
            r is Some <==> (0 <= self.sval() <= u128::MAX),
            r matches Some(v) ==> v as int == self.sval(),
    {
        let n = self.num;
        proof { self.lemma_bounds(); }
        if n[2] == 0 && n[3] == 0 && n[4] == 0 {
            Some(n[0] as u128 + n[1] as u128 * 0x1_0000_0000_0000_0000u128)
        } else {
            None
        }
    }

    /// Saturating conversion to `i128` (clamps to `i128::MIN` / `i128::MAX`).
    pub fn to_i128_saturating(self) -> (r: i128)
        ensures
            r as int == crate::arith::clamp128(self.sval()),
    {
        match self.to_i128_checked() {
            Some(v) => v,
            None => if self.is_negative() { i128::MIN } else { i128::MAX },
        }
    }

    /// Saturating conversion to `u128` (clamps to `u128::MAX`; negative → 0).
    pub fn to_u128_saturating(self) -> (r: u128)
        ensures
            r as int == (if self.sval() < 0 { 0 } else if self.sval() > u128::MAX { u128::MAX as int } else { self.sval() }),
    {
        if self.is_negative() {
            0
        } else {
            match self.to_u128_checked() {
                Some(v) => v,
                None => u128::MAX,
            }
        }
    }

    /// Tries to convert this `DtBig` to `i8`; an error if it is out of range.
    pub fn try_to_i8(self) -> (r: Result<i8, TryFromDtBigError>)
        ensures
            r is Ok <==> (i8::MIN <= self.sval() <= i8::MAX),
            r matches Ok(v) ==> v as int == self.sval(),
    {
        match self.to_i128_checked() {
            Some(v) => if i8::MIN as i128 <= v && v <= i8::MAX as i128 { Ok(v as i8) } else { Err(TryFromDtBigError) },
            None => Err(TryFromDtBigError),
        }
    }

    /// Tries to convert this `DtBig` to `i16`; an error if it is out of range.
    pub fn try_to_i16(self) -> (r: Result<i16, TryFromDtBigError>)
        ensures
            r is Ok <==> (i16::MIN <= self.sval() <= i16::MAX),
            r matches Ok(v) ==> v as int == self.sval(),
    {
        match self.to_i128_checked() {
            Some(v) => if i16::MIN as i128 <= v && v <= i16::MAX as i128 { Ok(v as i16) } else { Err(TryFromDtBigError) },
            None => Err(TryFromDtBigError),
        }
    }

    /// Tries to convert this `DtBig` to `i32`; an error if it is out of range.
    pub fn try_to_i32(self) -> (r: Result<i32, TryFromDtBigError>)
        ensures
            r is Ok <==> (i32::MIN <= self.sval() <= i32::MAX),
            r matches Ok(v) ==> v as int == self.sval(),
    {
        match self.to_i128_checked() {
            Some(v) => if i32::MIN as i128 <= v && v <= i32::MAX as i128 { Ok(v as i32) } else { Err(TryFromDtBigError) },
            None => Err(TryFromDtBigError),
        }
    }

    /// Tries to convert this `DtBig` to `i64`; an error if it is out of range.
    pub fn try_to_i64(self) -> (r: Result<i64, TryFromDtBigError>)
        ensures
            r is Ok <==> (i64::MIN <= self.sval() <= i64::MAX),
            r matches Ok(v) ==> v as int == self.sval(),
    {
        match self.to_i128_checked() {
            Some(v) => if i64::MIN as i128 <= v && v <= i64::MAX as i128 { Ok(v as i64) } else { Err(TryFromDtBigError) },
            None => Err(TryFromDtBigError),
        }
    }

    /// Tries to convert this `DtBig` to `i128`; an error if it is out of range.
    pub fn try_to_i128(self) -> (r: Result<i128, TryFromDtBigError>)
        ensures
            r is Ok <==> (i128::MIN <= self.sval() <= i128::MAX),
            r matches Ok(v) ==> v as int == self.sval(),
    {
        match self.to_i128_checked() {
            Some(v) => if true { Ok(v) } else { Err(TryFromDtBigError) },
            None => Err(TryFromDtBigError),
        }
    }

    /// Tries to convert this `DtBig` to `isize`; an error if it is out of range.
    pub fn try_to_isize(self) -> (r: Result<isize, TryFromDtBigError>)
        ensures
            r is Ok <==> (isize::MIN <= self.sval() <= isize::MAX),
            r matches Ok(v) ==> v as int == self.sval(),
    {
        match self.to_i128_checked() {
            Some(v) => if isize::MIN as i128 <= v && v <= isize::MAX as i128 { Ok(v as isize) } else { Err(TryFromDtBigError) },
            None => Err(TryFromDtBigError),
        }
    }

    /// Tries to convert this `DtBig` to `u8`; an error if it is out of range.
    pub fn try_to_u8(self) -> (r: Result<u8, TryFromDtBigError>)
        ensures
            r is Ok <==> (0 <= self.sval() <= u8::MAX),
            r matches Ok(v) ==> v as int == self.sval(),
    {
        if self.is_negative() {
            return Err(TryFromDtBigError);
        }
        match self.to_u128_checked() {
            Some(v) => if v <= u8::MAX as u128 { Ok(v as u8) } else { Err(TryFromDtBigError) },
            None => Err(TryFromDtBigError),
        }
    }

    /// Tries to convert this `DtBig` to `u16`; an error if it is out of range.
    pub fn try_to_u16(self) -> (r: Result<u16, TryFromDtBigError>)
        ensures
            r is Ok <==> (0 <= self.sval() <= u16::MAX),
            r matches Ok(v) ==> v as int == self.sval(),
    {
        if self.is_negative() {
            return Err(TryFromDtBigError);
        }
        match self.to_u128_checked() {
            Some(v) => if v <= u16::MAX as u128 { Ok(v as u16) } else { Err(TryFromDtBigError) },
            None => Err(TryFromDtBigError),
        }
    }

    /// Tries to convert this `DtBig` to `u32`; an error if it is out of range.
    pub fn try_to_u32(self) -> (r: Result<u32, TryFromDtBigError>)
        ensures
            r is Ok <==> (0 <= self.sval() <= u32::MAX),
            r matches Ok(v) ==> v as int == self.sval(),
    {
        if self.is_negative() {
            return Err(TryFromDtBigError);
        }
        match self.to_u128_checked() {
            Some(v) => if v <= u32::MAX as u128 { Ok(v as u32) } else { Err(TryFromDtBigError) },
            None => Err(TryFromDtBigError),
        }
    }

    /// Tries to convert this `DtBig` to `u64`; an error if it is out of range.
    pub fn try_to_u64(self) -> (r: Result<u64, TryFromDtBigError>)
        ensures
            r is Ok <==> (0 <= self.sval() <= u64::MAX),
            r matches Ok(v) ==> v as int == self.sval(),
    {
        if self.is_negative() {
            return Err(TryFromDtBigError);
        }
        match self.to_u128_checked() {
            Some(v) => if v <= u64::MAX as u128 { Ok(v as u64) } else { Err(TryFromDtBigError) },
            None => Err(TryFromDtBigError),
        }
    }

    /// Tries to convert this `DtBig` to `u128`; an error if it is out of range.
    pub fn try_to_u128(self) -> (r: Result<u128, TryFromDtBigError>)
        ensures
            r is Ok <==> (0 <= self.sval() <= u128::MAX),
            r matches Ok(v) ==> v as int == self.sval(),
    {
        if self.is_negative() {
            return Err(TryFromDtBigError);
        }
        match self.to_u128_checked() {
            Some(v) => if true { Ok(v) } else { Err(TryFromDtBigError) },
            None => Err(TryFromDtBigError),
        }
    }

    /// Tries to convert this `DtBig` to `usize`; an error if it is out of range.
    pub fn try_to_usize(self) -> (r: Result<usize, TryFromDtBigError>)
        ensures
            r is Ok <==> (0 <= self.sval() <= usize::MAX),
            r matches Ok(v) ==> v as int == self.sval(),
    {
        if self.is_negative() {
            return Err(TryFromDtBigError);
        }
        match self.to_u128_checked() {
            Some(v) => if v <= usize::MAX as u128 { Ok(v as usize) } else { Err(TryFromDtBigError) },
            None => Err(TryFromDtBigError),
        }
    }
}

/// Error returned when a `DtBig` value cannot be represented by the target
/// primitive integer type (it is out of range).
#[derive(Clone, Copy, PartialEq, Eq, Debug)]
pub struct TryFromDtBigError;

impl From<i8> for DtBig {
    fn from(value: i8) -> (r: Self) {
        let r = DtBig::from_i8(value);
        proof { lemma_wrap(value as int, 0); DtBig::lemma_of_int(value as int, r); }
        r
    }
}

impl vstd::std_specs::convert::FromSpecImpl<i8> for DtBig {
    open spec fn obeys_from_spec() -> bool { true }
    open spec fn from_spec(v: i8) -> DtBig { DtBig::of_int(v as int) }
}

impl From<i16> for DtBig {
    fn from(value: i16) -> (r: Self) {
        let r = DtBig::from_i16(value);
        proof { lemma_wrap(value as int, 0); DtBig::lemma_of_int(value as int, r); }
        r
    }
}

impl vstd::std_specs::convert::FromSpecImpl<i16> for DtBig {
    open spec fn obeys_from_spec() -> bool { true }
    open spec fn from_spec(v: i16) -> DtBig { DtBig::of_int(v as int) }
}

impl From<i32> for DtBig {
    fn from(value: i32) -> (r: Self) {
        let r = DtBig::from_i32(value);
        proof { lemma_wrap(value as int, 0); DtBig::lemma_of_int(value as int, r); }
        r
    }
}

impl vstd::std_specs::convert::FromSpecImpl<i32> for DtBig {
    open spec fn obeys_from_spec() -> bool { true }
    open spec fn from_spec(v: i32) -> DtBig { DtBig::of_int(v as int) }
}

impl From<i64> for DtBig {
    fn from(value: i64) -> (r: Self) {
        let r = DtBig::from_i64(value);
        proof { lemma_wrap(value as int, 0); DtBig::lemma_of_int(value as int, r); }
        r
    }
}

impl vstd::std_specs::convert::FromSpecImpl<i64> for DtBig {
    open spec fn obeys_from_spec() -> bool { true }
    open spec fn from_spec(v: i64) -> DtBig { DtBig::of_int(v as int) }
}

impl From<i128> for DtBig {
    fn from(value: i128) -> (r: Self) {
        let r = DtBig::from_i128(value);
        proof { lemma_wrap(value as int, 0); DtBig::lemma_of_int(value as int, r); }
        r
    }
}

impl vstd::std_specs::convert::FromSpecImpl<i128> for DtBig {
    open spec fn obeys_from_spec() -> bool { true }
    open spec fn from_spec(v: i128) -> DtBig { DtBig::of_int(v as int) }
}

impl From<isize> for DtBig {
    fn from(value: isize) -> (r: Self) {
        let r = DtBig::from_isize(value);
        proof { lemma_wrap(value as int, 0); DtBig::lemma_of_int(value as int, r); }
        r
    }
}

impl vstd::std_specs::convert::FromSpecImpl<isize> for DtBig {
    open spec fn obeys_from_spec() -> bool { true }
    open spec fn from_spec(v: isize) -> DtBig { DtBig::of_int(v as int) }
}

impl From<u8> for DtBig {
    fn from(value: u8) -> (r: Self) {
        let r = DtBig::from_u8(value);
        proof { lemma_wrap(value as int, 0); DtBig::lemma_of_int(value as int, r); }
        r
    }
}

impl vstd::std_specs::convert::FromSpecImpl<u8> for DtBig {
    open spec fn obeys_from_spec() -> bool { true }
    open spec fn from_spec(v: u8) -> DtBig { DtBig::of_int(v as int) }
}

impl From<u16> for DtBig {
    fn from(value: u16) -> (r: Self) {
        let r = DtBig::from_u16(value);
        proof { lemma_wrap(value as int, 0); DtBig::lemma_of_int(value as int, r); }
        r
    }
}

impl vstd::std_specs::convert::FromSpecImpl<u16> for DtBig {
    open spec fn obeys_from_spec() -> bool { true }
    open spec fn from_spec(v: u16) -> DtBig { DtBig::of_int(v as int) }
}

impl From<u32> for DtBig {
    fn from(value: u32) -> (r: Self) {
        let r = DtBig::from_u32(value);
        proof { lemma_wrap(value as int, 0); DtBig::lemma_of_int(value as int, r); }
        r
    }
}

impl vstd::std_specs::convert::FromSpecImpl<u32> for DtBig {
    open spec fn obeys_from_spec() -> bool { true }
    open spec fn from_spec(v: u32) -> DtBig { DtBig::of_int(v as int) }
}

impl From<u64> for DtBig {
    fn from(value: u64) -> (r: Self) {
        let r = DtBig::from_u64(value);
        proof { lemma_wrap(value as int, 0); DtBig::lemma_of_int(value as int, r); }
        r
    }
}

impl vstd::std_specs::convert::FromSpecImpl<u64> for DtBig {
    open spec fn obeys_from_spec() -> bool { true }
    open spec fn from_spec(v: u64) -> DtBig { DtBig::of_int(v as int) }
}

impl From<u128> for DtBig {
    fn from(value: u128) -> (r: Self) {
        let r = DtBig::from_u128(value);
        proof { lemma_wrap(value as int, 0); DtBig::lemma_of_int(value as int, r); }
        r
    }
}

impl vstd::std_specs::convert::FromSpecImpl<u128> for DtBig {
    open spec fn obeys_from_spec() -> bool { true }
    open spec fn from_spec(v: u128) -> DtBig { DtBig::of_int(v as int) }
}

impl From<usize> for DtBig {
    fn from(value: usize) -> (r: Self) {
        let r = DtBig::from_usize(value);
        proof { lemma_wrap(value as int, 0); DtBig::lemma_of_int(value as int, r); }
        r
    }
}

impl vstd::std_specs::convert::FromSpecImpl<usize> for DtBig {
    open spec fn obeys_from_spec() -> bool { true }
    open spec fn from_spec(v: usize) -> DtBig { DtBig::of_int(v as int) }
}

impl From<[u64; 5]> for DtBig {
    fn from(num: [u64; 5]) -> (r: Self) {
        let r = DtBig::from_num(num);
        proof { DtBig::lemma_of_limbs(num, r); }
        r
    }
}

impl vstd::std_specs::convert::FromSpecImpl<[u64; 5]> for DtBig {
    open spec fn obeys_from_spec() -> bool { true }
    open spec fn from_spec(v: [u64; 5]) -> DtBig { DtBig::of_limbs(v) }
}

impl From<DtBig> for [u64; 5] {
    fn from(dt: DtBig) -> (r: Self) {
        *dt.num()
    }
}

impl vstd::std_specs::convert::FromSpecImpl<DtBig> for [u64; 5] {
    open spec fn obeys_from_spec() -> bool { true }
    open spec fn from_spec(v: DtBig) -> [u64; 5] { v.limbs() }
}


impl core::ops::Add for DtBig {
    type Output = DtBig;

    fn add(self, rhs: DtBig) -> (r: DtBig) {
        let r = self.wrapping_add(rhs);
        proof { DtBig::lemma_of_int(self.sval() + rhs.sval(), r); }
        r
    }
}

impl vstd::std_specs::ops::AddSpecImpl for DtBig {
    open spec fn obeys_add_spec() -> bool { true }
    open spec fn add_req(self, rhs: DtBig) -> bool { true }
    open spec fn add_spec(self, rhs: DtBig) -> DtBig { DtBig::of_int(self.sval() + rhs.sval()) }
}

impl core::ops::Sub for DtBig {
    type Output = DtBig;

    fn sub(self, rhs: DtBig) -> (r: DtBig) {
        let r = self.wrapping_sub(rhs);
        proof { DtBig::lemma_of_int(self.sval() - rhs.sval(), r); }
        r
    }
}

impl vstd::std_specs::ops::SubSpecImpl for DtBig {
    open spec fn obeys_sub_spec() -> bool { true }
    open spec fn sub_req(self, rhs: DtBig) -> bool { true }
    open spec fn sub_spec(self, rhs: DtBig) -> DtBig { DtBig::of_int(self.sval() - rhs.sval()) }
}

impl core::ops::Mul for DtBig {
    type Output = DtBig;

    fn mul(self, rhs: DtBig) -> (r: DtBig) {
        let r = self.wrapping_mul(rhs);
        proof { DtBig::lemma_of_int(self.sval() * rhs.sval(), r); }
        r
    }
}

impl vstd::std_specs::ops::MulSpecImpl for DtBig {
    open spec fn obeys_mul_spec() -> bool { true }
    open spec fn mul_req(self, rhs: DtBig) -> bool { true }
    open spec fn mul_spec(self, rhs: DtBig) -> DtBig { DtBig::of_int(self.sval() * rhs.sval()) }
}

impl core::ops::Div for DtBig {
    type Output = DtBig;

    fn div(self, rhs: DtBig) -> (r: DtBig) {
        let r = self.wrapping_div(rhs);
        proof { DtBig::lemma_of_int(tdiv(self.sval(), rhs.sval()), r); }
        r
    }
}

impl vstd::std_specs::ops::DivSpecImpl for DtBig {
    open spec fn obeys_div_spec() -> bool { true }
    open spec fn div_req(self, rhs: DtBig) -> bool { rhs.sval() != 0 }
    open spec fn div_spec(self, rhs: DtBig) -> DtBig { DtBig::of_int(tdiv(self.sval(), rhs.sval())) }
}

impl core::ops::Rem for DtBig {
    type Output = DtBig;

    fn rem(self, rhs: DtBig) -> (r: DtBig) {
        let r = self.wrapping_rem(rhs);
        proof { lemma_trunc_div(self.sval(), rhs.sval()); rhs.lemma_bounds(); lemma_wrap(trem(self.sval(), rhs.sval()), 0); DtBig::lemma_of_int(trem(self.sval(), rhs.sval()), r); }
        r
    }
}

impl vstd::std_specs::ops::RemSpecImpl for DtBig {
    open spec fn obeys_rem_spec() -> bool { true }
    open spec fn rem_req(self, rhs: DtBig) -> bool { rhs.sval() != 0 }
    open spec fn rem_spec(self, rhs: DtBig) -> DtBig { DtBig::of_int(trem(self.sval(), rhs.sval())) }
}

impl core::ops::BitAnd for DtBig {
    type Output = DtBig;

    fn bitand(self, rhs: DtBig) -> (r: DtBig) {
        let r = DtBig::bitand(self, rhs);
        proof { DtBig::lemma_of_limbs(and_limbs(self.limbs(), rhs.limbs()), r); }
        r
    }
}

impl vstd::std_specs::ops::BitAndSpecImpl for DtBig {
    open spec fn obeys_bitand_spec() -> bool { true }
    open spec fn bitand_req(self, rhs: DtBig) -> bool { true }
    open spec fn bitand_spec(self, rhs: DtBig) -> DtBig { DtBig::of_limbs(and_limbs(self.limbs(), rhs.limbs())) }
}

impl core::ops::BitOr for DtBig {
    type Output = DtBig;

    fn bitor(self, rhs: DtBig) -> (r: DtBig) {
        let r = DtBig::bitor(self, rhs);
        proof { DtBig::lemma_of_limbs(or_limbs(self.limbs(), rhs.limbs()), r); }
        r
    }
}

impl vstd::std_specs::ops::BitOrSpecImpl for DtBig {
    open spec fn obeys_bitor_spec() -> bool { true }
    open spec fn bitor_req(self, rhs: DtBig) -> bool { true }
    open spec fn bitor_spec(self, rhs: DtBig) -> DtBig { DtBig::of_limbs(or_limbs(self.limbs(), rhs.limbs())) }
}

impl core::ops::BitXor for DtBig {
    type Output = DtBig;

    fn bitxor(self, rhs: DtBig) -> (r: DtBig) {
        let r = DtBig::bitxor(self, rhs);
        proof { DtBig::lemma_of_limbs(xor_limbs(self.limbs(), rhs.limbs()), r); }
        r
    }
}

impl vstd::std_specs::ops::BitXorSpecImpl for DtBig {
    open spec fn obeys_bitxor_spec() -> bool { true }
    open spec fn bitxor_req(self, rhs: DtBig) -> bool { true }
    open spec fn bitxor_spec(self, rhs: DtBig) -> DtBig { DtBig::of_limbs(xor_limbs(self.limbs(), rhs.limbs())) }
}

impl core::ops::Neg for DtBig {
    type Output = DtBig;

    fn neg(self) -> (r: DtBig) {
        let r = DtBig::neg(self);
        proof { DtBig::lemma_of_int(-self.sval(), r); }
        r
    }
}

impl vstd::std_specs::ops::NegSpecImpl for DtBig {
    open spec fn obeys_neg_spec() -> bool { true }
    open spec fn neg_req(self) -> bool { true }
    open spec fn neg_spec(self) -> DtBig { DtBig::of_int(-self.sval()) }
}

impl core::ops::Not for DtBig {
    type Output = DtBig;

    fn not(self) -> (r: DtBig) {
        let r = DtBig::not(self);
        proof { lemma_wrap(-self.sval() - 1, 0); self.lemma_bounds(); DtBig::lemma_of_int(-self.sval() - 1, r); }
        r
    }
}

impl vstd::std_specs::ops::NotSpecImpl for DtBig {
    open spec fn obeys_not_spec() -> bool { true }
    open spec fn not_req(self) -> bool { true }
    open spec fn not_spec(self) -> DtBig { DtBig::of_int(-self.sval() - 1) }
}




/// The number of one bits of a natural number.
pub open spec fn popcount(x: nat) -> nat
    decreases x,
{
    if x == 0 { 0 } else { (x % 2) + popcount(x / 2) }
}

/// The low `n` bits of `x` in reverse order.
pub open spec fn rev_bits(x: nat, n: nat) -> nat
    decreases n,
{
    if n == 0 { 0 } else { (x % 2) * pow2((n - 1) as nat) + rev_bits(x / 2, (n - 1) as nat) }
}

/// The little-endian value of eight bytes.
pub open spec fn bytes_val(b: [u8; 8]) -> int {
    b[0] as int * 1int + b[1] as int * 256int + b[2] as int * 65536int + b[3] as int * 16777216int + b[4] as int * 4294967296int + b[5] as int * 1099511627776int + b[6] as int * 281474976710656int + b[7] as int * 72057594037927936int
}

/// The eight little-endian bytes of a limb.
pub open spec fn le_bytes_of(x: u64) -> [u8; 8] {
    [
        (x as int % 256) as u8,
        ((x as int / 256) % 256) as u8,
        ((x as int / 65536) % 256) as u8,
        ((x as int / 16777216) % 256) as u8,
        ((x as int / 4294967296) % 256) as u8,
        ((x as int / 1099511627776) % 256) as u8,
        ((x as int / 281474976710656) % 256) as u8,
        ((x as int / 72057594037927936) % 256) as u8,
    ]
}

/// Eight bytes in the opposite order.
pub open spec fn rev8(b: [u8; 8]) -> [u8; 8] {
    [b[7], b[6], b[5], b[4], b[3], b[2], b[1], b[0]]
}

/// A limb is the value of its little-endian bytes.
pub proof fn lemma_le_bytes_of(x: u64)
    ensures
        bytes_val(le_bytes_of(x)) == x as int,
{
    let v = x as int;
    lemma_floor_div_twice(v, 256, 256);
    lemma_floor_div_twice(v, 65536, 256);
    lemma_floor_div_twice(v, 16777216, 256);
    lemma_floor_div_twice(v, 4294967296, 256);
    lemma_floor_div_twice(v, 1099511627776, 256);
    lemma_floor_div_twice(v, 281474976710656, 256);
    lemma_fundamental_div_mod(v, 256);
    lemma_fundamental_div_mod(v / 256, 256);
    lemma_fundamental_div_mod(v / 65536, 256);
    lemma_fundamental_div_mod(v / 16777216, 256);
    lemma_fundamental_div_mod(v / 4294967296, 256);
    lemma_fundamental_div_mod(v / 1099511627776, 256);
    lemma_fundamental_div_mod(v / 281474976710656, 256);
    lemma_div_is_ordered(v, 0xFFFF_FFFF_FFFF_FFFF, 72057594037927936);
    lemma_small_mod((v / 72057594037927936) as nat, 256);
    lemma_mod_bound(v, 256);
    lemma_mod_bound(v / 256, 256);
    lemma_mod_bound(v / 65536, 256);
    lemma_mod_bound(v / 16777216, 256);
    lemma_mod_bound(v / 4294967296, 256);
    lemma_mod_bound(v / 1099511627776, 256);
    lemma_mod_bound(v / 281474976710656, 256);
}

/// Leading zero bits of five limbs, the highest limb first.
pub open spec fn lz_limbs(n: [u64; 5]) -> int {
    if n[4] != 0 { u64_leading_zeros_spec(n[4]) }
    else if n[3] != 0 { 64 + u64_leading_zeros_spec(n[3]) }
    else if n[2] != 0 { 128 + u64_leading_zeros_spec(n[2]) }
    else if n[1] != 0 { 192 + u64_leading_zeros_spec(n[1]) }
    else if n[0] != 0 { 256 + u64_leading_zeros_spec(n[0]) }
    else { 320 }
}

/// Trailing zero bits of five limbs, the lowest limb first.
pub open spec fn tz_limbs(n: [u64; 5]) -> int {
    if n[0] != 0 { u64_trailing_zeros_spec(n[0]) }
    else if n[1] != 0 { 64 + u64_trailing_zeros_spec(n[1]) }
    else if n[2] != 0 { 128 + u64_trailing_zeros_spec(n[2]) }
    else if n[3] != 0 { 192 + u64_trailing_zeros_spec(n[3]) }
    else if n[4] != 0 { 256 + u64_trailing_zeros_spec(n[4]) }
    else { 320 }
}

/// Leading one bits of five limbs, the highest limb first.
pub open spec fn lo_limbs(n: [u64; 5]) -> int {
    if n[4] != u64::MAX { u64_leading_ones_spec(n[4]) }
    else if n[3] != u64::MAX { 64 + u64_leading_ones_spec(n[3]) }
    else if n[2] != u64::MAX { 128 + u64_leading_ones_spec(n[2]) }
    else if n[1] != u64::MAX { 192 + u64_leading_ones_spec(n[1]) }
    else if n[0] != u64::MAX { 256 + u64_leading_ones_spec(n[0]) }
    else { 320 }
}

/// Trailing one bits of five limbs, the lowest limb first.
pub open spec fn to_limbs(n: [u64; 5]) -> int {
    if n[0] != u64::MAX { u64_trailing_ones_spec(n[0]) }
    else if n[1] != u64::MAX { 64 + u64_trailing_ones_spec(n[1]) }
    else if n[2] != u64::MAX { 128 + u64_trailing_ones_spec(n[2]) }
    else if n[3] != u64::MAX { 192 + u64_trailing_ones_spec(n[3]) }
    else if n[4] != u64::MAX { 256 + u64_trailing_ones_spec(n[4]) }
    else { 320 }
}

/// Leading zeros of a limb, as the standard library counts them.
pub open spec fn u64_leading_zeros_spec(x: u64) -> int {
    vstd::std_specs::bits::u64_leading_zeros(x) as int
}

/// Trailing zeros of a limb, as the standard library counts them.
pub open spec fn u64_trailing_zeros_spec(x: u64) -> int {
    vstd::std_specs::bits::u64_trailing_zeros(x) as int
}

/// Leading ones of a limb, as the standard library counts them.
pub open spec fn u64_leading_ones_spec(x: u64) -> int {
    vstd::std_specs::bits::u64_leading_ones(x) as int
}

/// Trailing ones of a limb, as the standard library counts them.
pub open spec fn u64_trailing_ones_spec(x: u64) -> int {
    vstd::std_specs::bits::u64_trailing_ones(x) as int
}

/// Counts the one bits of a limb.
fn limb_count_ones(x: u64) -> (r: u32)
    ensures
        r as nat == popcount(x as nat),
        r <= 64,
{
    let mut y = x;
    let mut c: u32 = 0;
    let mut i: u32 = 0;
    proof { lemma2_to64(); }
    while i < 64
        invariant
            c as nat + popcount(y as nat) == popcount(x as nat),
            i <= 64,
            c <= i,
            (y as int) < pow2((64 - i) as nat) as int,
        decreases 64 - i,
    {
        proof {
            lemma_pow2_unfold((64 - i) as nat);
        }
        c = c + (y % 2) as u32;
        y = y / 2;
        i = i + 1;
    }
    proof { assert(y == 0); }
    c
}

/// Reverses the bits of a limb.
fn limb_reverse_bits(x: u64) -> (r: u64)
    ensures
        r as nat == rev_bits(x as nat, 64),
{
    let mut y = x;
    let mut r: u64 = 0;
    let mut i: u32 = 0;
    proof { lemma2_to64(); lemma2_to64_rest(); }
    while i < 64
        invariant
            i <= 64,
            rev_bits(x as nat, 64) == (r as nat) * pow2((64 - i) as nat) + rev_bits(y as nat, (64 - i) as nat),
            (r as int) < pow2(i as nat) as int,
            pow2(63) == 0x8000_0000_0000_0000,
            pow2(0) == 1,
        decreases 64 - i,
    {
        let ghost n = (64 - i) as nat;
        proof {
            lemma_pow2_unfold(n);
            lemma_pow2_unfold((i + 1) as nat);
            if i < 63 {
                lemma_pow2_strictly_increases(i as nat, 63);
            }
            assert((r as nat) * pow2(n) == (2 * (r as nat)) * pow2((n - 1) as nat)) by (nonlinear_arith)
                requires pow2(n) == 2 * pow2((n - 1) as nat);
            assert(((2 * r + y % 2) as nat) * pow2((n - 1) as nat) == (2 * (r as nat)) * pow2((n - 1) as nat)
                + ((y % 2) as nat) * pow2((n - 1) as nat)) by (nonlinear_arith);
        }
        r = 2 * r + y % 2;
        y = y / 2;
        i = i + 1;
    }
    proof {
        assert(i == 64);
        assert(rev_bits(y as nat, 0) == 0);
        assert(pow2((64 - i) as nat) == 1);
        lemma_mul_basics(r as int);
    }
    r
}

/// Splits a limb into its eight little-endian bytes.
pub(crate) fn limb_to_bytes(x: u64) -> (r: [u8; 8])
    ensures
        r == le_bytes_of(x),
{
    [
        (x % 0x100) as u8,
        ((x / 0x100) % 0x100) as u8,
        ((x / 0x1_0000) % 0x100) as u8,
        ((x / 0x100_0000) % 0x100) as u8,
        ((x / 0x1_0000_0000) % 0x100) as u8,
        ((x / 0x100_0000_0000) % 0x100) as u8,
        ((x / 0x1_0000_0000_0000) % 0x100) as u8,
        ((x / 0x100_0000_0000_0000) % 0x100) as u8,
    ]
}

/// Joins eight little-endian bytes into a limb.
pub(crate) fn limb_from_bytes(b: [u8; 8]) -> (r: u64)
    ensures
        r as int == bytes_val(b),
{
    b[0] as u64 + b[1] as u64 * 0x100 + b[2] as u64 * 0x1_0000 + b[3] as u64 * 0x100_0000
        + b[4] as u64 * 0x1_0000_0000 + b[5] as u64 * 0x100_0000_0000 + b[6] as u64 * 0x1_0000_0000_0000
        + b[7] as u64 * 0x100_0000_0000_0000
}

impl DtBig {
    /// Number of leading zeros in the binary representation.
    pub fn leading_zeros(self) -> (r: u32)
        ensures
            r as int == lz_limbs(self.limbs()),
    {
        let n = self.num;
        if n[4] != 0 { n[4].leading_zeros() }
        else if n[3] != 0 { 64 + n[3].leading_zeros() }
        else if n[2] != 0 { 128 + n[2].leading_zeros() }
        else if n[1] != 0 { 192 + n[1].leading_zeros() }
        else if n[0] != 0 { 256 + n[0].leading_zeros() }
        else { 320 }
    }

    /// Number of trailing zeros in the binary representation.
    pub fn trailing_zeros(self) -> (r: u32)
        ensures
            r as int == tz_limbs(self.limbs()),
    {
        let n = self.num;
        if n[0] != 0 { n[0].trailing_zeros() }
        else if n[1] != 0 { 64 + n[1].trailing_zeros() }
        else if n[2] != 0 { 128 + n[2].trailing_zeros() }
        else if n[3] != 0 { 192 + n[3].trailing_zeros() }
        else if n[4] != 0 { 256 + n[4].trailing_zeros() }
        else { 320 }
    }

    /// Number of leading ones in the binary representation.
    pub fn leading_ones(self) -> (r: u32)
        ensures
            r as int == lo_limbs(self.limbs()),
    {
        let n = self.num;
        if n[4] != u64::MAX { n[4].leading_ones() }
        else if n[3] != u64::MAX { 64 + n[3].leading_ones() }
        else if n[2] != u64::MAX { 128 + n[2].leading_ones() }
        else if n[1] != u64::MAX { 192 + n[1].leading_ones() }
        else if n[0] != u64::MAX { 256 + n[0].leading_ones() }
        else { 320 }
    }

    /// Number of trailing ones in the binary representation.
    pub fn trailing_ones(self) -> (r: u32)
        ensures
            r as int == to_limbs(self.limbs()),
    {
        let n = self.num;
        if n[0] != u64::MAX { n[0].trailing_ones() }
        else if n[1] != u64::MAX { 64 + n[1].trailing_ones() }
        else if n[2] != u64::MAX { 128 + n[2].trailing_ones() }
        else if n[3] != u64::MAX { 192 + n[3].trailing_ones() }
        else if n[4] != u64::MAX { 256 + n[4].trailing_ones() }
        else { 320 }
    }

    /// Returns the number of ones in the binary representation of `self`.
    pub fn count_ones(self) -> (r: u32)
        ensures
            r as nat == popcount(self.limbs()[0] as nat) + popcount(self.limbs()[1] as nat)
                + popcount(self.limbs()[2] as nat) + popcount(self.limbs()[3] as nat)
                + popcount(self.limbs()[4] as nat),
            r <= 320,
    {
        let n = self.num;
        limb_count_ones(n[0]) + limb_count_ones(n[1]) + limb_count_ones(n[2]) + limb_count_ones(n[3])
            + limb_count_ones(n[4])
    }

    /// Returns the number of zeros in the binary representation of `self`.
    pub fn count_zeros(self) -> (r: u32)
        ensures
            r as nat == 320 - (popcount(self.limbs()[0] as nat) + popcount(self.limbs()[1] as nat)
                + popcount(self.limbs()[2] as nat) + popcount(self.limbs()[3] as nat)
                + popcount(self.limbs()[4] as nat)),
    {
        320 - self.count_ones()
    }

    /// Reverses the byte order inside each limb (the limbs keep their places).
    pub fn swap_bytes(self) -> (r: Self)
        ensures
            forall|i: int| 0 <= i < 5 ==> #[trigger] r.limbs()[i] as int == bytes_val(rev8(le_bytes_of(self.limbs()[i]))),
    {
        let n = self.num;
        DtBig { num: [swap_limb(n[0]), swap_limb(n[1]), swap_limb(n[2]), swap_limb(n[3]), swap_limb(n[4])] }
    }

    /// Reverses the order of all 320 bits.
    pub fn reverse_bits(self) -> (r: Self)
        ensures
            forall|i: int| 0 <= i < 5 ==> #[trigger] r.limbs()[i] as nat == rev_bits(self.limbs()[4 - i] as nat, 64),
    {
        let n = self.num;
        DtBig { num: [
            limb_reverse_bits(n[4]), limb_reverse_bits(n[3]), limb_reverse_bits(n[2]),
            limb_reverse_bits(n[1]), limb_reverse_bits(n[0]),
        ] }
    }

    /// The little-endian byte representation (40 bytes).
    pub fn to_le_bytes(self) -> (r: [u8; 40])
        ensures
            forall|i: int| 0 <= i < 5 ==> #[trigger] le_chunk(r, i) == le_bytes_of(self.limbs()[i]),
    {
        let n = self.num;
        let b0 = limb_to_bytes(n[0]);
        let b1 = limb_to_bytes(n[1]);
        let b2 = limb_to_bytes(n[2]);
        let b3 = limb_to_bytes(n[3]);
        let b4 = limb_to_bytes(n[4]);
        let r = [
            b0[0], b0[1], b0[2], b0[3], b0[4], b0[5], b0[6], b0[7],
            b1[0], b1[1], b1[2], b1[3], b1[4], b1[5], b1[6], b1[7],
            b2[0], b2[1], b2[2], b2[3], b2[4], b2[5], b2[6], b2[7],
            b3[0], b3[1], b3[2], b3[3], b3[4], b3[5], b3[6], b3[7],
            b4[0], b4[1], b4[2], b4[3], b4[4], b4[5], b4[6], b4[7],
        ];
        proof {
            assert(le_chunk(r, 0) =~= b0);
            assert(le_chunk(r, 1) =~= b1);
            assert(le_chunk(r, 2) =~= b2);
            assert(le_chunk(r, 3) =~= b3);
            assert(le_chunk(r, 4) =~= b4);
        }
        r
    }

    /// Creates a `DtBig` from its little-endian byte representation.
    pub fn from_le_bytes(bytes: [u8; 40]) -> (r: Self)
        ensures
            forall|i: int| 0 <= i < 5 ==> #[trigger] r.limbs()[i] as int == bytes_val(le_chunk(bytes, i)),
    {
        let b = bytes;
        DtBig { num: [
            limb_from_bytes([b[0], b[1], b[2], b[3], b[4], b[5], b[6], b[7]]),
            limb_from_bytes([b[8], b[9], b[10], b[11], b[12], b[13], b[14], b[15]]),
            limb_from_bytes([b[16], b[17], b[18], b[19], b[20], b[21], b[22], b[23]]),
            limb_from_bytes([b[24], b[25], b[26], b[27], b[28], b[29], b[30], b[31]]),
            limb_from_bytes([b[32], b[33], b[34], b[35], b[36], b[37], b[38], b[39]]),
        ] }
    }

    /// The big-endian byte representation (40 bytes): the reverse of the
    /// little-endian one.
    pub fn to_be_bytes(self) -> (r: [u8; 40])
        ensures
            r == rev40(self.to_le_bytes_spec()),
    {
        let le = self.to_le_bytes();
        let r = [
            le[39], le[38], le[37], le[36], le[35], le[34], le[33], le[32],
            le[31], le[30], le[29], le[28], le[27], le[26], le[25], le[24],
            le[23], le[22], le[21], le[20], le[19], le[18], le[17], le[16],
            le[15], le[14], le[13], le[12], le[11], le[10], le[9], le[8],
            le[7], le[6], le[5], le[4], le[3], le[2], le[1], le[0],
        ];
        proof { self.lemma_le_bytes_spec(le); assert(r =~= rev40(le)); }
        r
    }

    /// Creates a `DtBig` from its big-endian byte representation.
    pub fn from_be_bytes(bytes: [u8; 40]) -> (r: Self)
        ensures
            r == Self::from_le_bytes_spec(rev40(bytes)),
    {
        let b = bytes;
        let le = [
            b[39], b[38], b[37], b[36], b[35], b[34], b[33], b[32],
            b[31], b[30], b[29], b[28], b[27], b[26], b[25], b[24],
            b[23], b[22], b[21], b[20], b[19], b[18], b[17], b[16],
            b[15], b[14], b[13], b[12], b[11], b[10], b[9], b[8],
            b[7], b[6], b[5], b[4], b[3], b[2], b[1], b[0],
        ];
        let r = Self::from_le_bytes(le);
        proof {
            assert(le =~= rev40(bytes));
            Self::lemma_from_le_bytes_spec(le, r);
        }
        r
    }

    /// The value of `to_le_bytes`.
    pub open spec fn to_le_bytes_spec(self) -> [u8; 40] {
        le_bytes_40(self.limbs())
    }

    /// The value of `from_le_bytes`.
    pub open spec fn from_le_bytes_spec(bytes: [u8; 40]) -> Self {
        choose|r: Self| #![trigger r.limbs()] forall|i: int| 0 <= i < 5 ==> #[trigger] r.limbs()[i] as int == bytes_val(le_chunk(bytes, i))
    }

    /// `to_le_bytes_spec` is what `to_le_bytes` returns.
    pub proof fn lemma_le_bytes_spec(self, r: [u8; 40])
        requires
            forall|i: int| 0 <= i < 5 ==> #[trigger] le_chunk(r, i) == le_bytes_of(self.limbs()[i]),
        ensures
            self.to_le_bytes_spec() == r,
    {
        let c = self.to_le_bytes_spec();
        assert(le_chunk(c, 0) =~= le_bytes_of(self.limbs()[0]));
        assert(le_chunk(c, 1) =~= le_bytes_of(self.limbs()[1]));
        assert(le_chunk(c, 2) =~= le_bytes_of(self.limbs()[2]));
        assert(le_chunk(c, 3) =~= le_bytes_of(self.limbs()[3]));
        assert(le_chunk(c, 4) =~= le_bytes_of(self.limbs()[4]));
        lemma_chunks_determine(c, r);
    }

    /// `from_le_bytes_spec` is what `from_le_bytes` returns.
    pub proof fn lemma_from_le_bytes_spec(bytes: [u8; 40], r: Self)
        requires
            forall|i: int| 0 <= i < 5 ==> #[trigger] r.limbs()[i] as int == bytes_val(le_chunk(bytes, i)),
        ensures
            Self::from_le_bytes_spec(bytes) == r,
    {
        let c = Self::from_le_bytes_spec(bytes);
        assert(c.limbs() =~= r.limbs()) by {
            assert(c.limbs()[0] == r.limbs()[0]);
            assert(c.limbs()[1] == r.limbs()[1]);
            assert(c.limbs()[2] == r.limbs()[2]);
            assert(c.limbs()[3] == r.limbs()[3]);
            assert(c.limbs()[4] == r.limbs()[4]);
        }
        c.lemma_uval_injective(r);
    }
}

/// Bytes `8i .. 8i + 8` of a 40-byte array.
pub open spec fn le_chunk(b: [u8; 40], i: int) -> [u8; 8] {
    [b[8 * i], b[8 * i + 1], b[8 * i + 2], b[8 * i + 3], b[8 * i + 4], b[8 * i + 5], b[8 * i + 6], b[8 * i + 7]]
}

/// A 40-byte array in the opposite order.
pub open spec fn rev40(b: [u8; 40]) -> [u8; 40] {
    [b[39], b[38], b[37], b[36], b[35], b[34], b[33], b[32], b[31], b[30], b[29], b[28], b[27], b[26], b[25], b[24], b[23], b[22], b[21], b[20], b[19], b[18], b[17], b[16], b[15], b[14], b[13], b[12], b[11], b[10], b[9], b[8], b[7], b[6], b[5], b[4], b[3], b[2], b[1], b[0]]
}

/// The forty little-endian bytes of five limbs.
pub open spec fn le_bytes_40(n: [u64; 5]) -> [u8; 40] {
    [le_bytes_of(n[0])[0], le_bytes_of(n[0])[1], le_bytes_of(n[0])[2], le_bytes_of(n[0])[3], le_bytes_of(n[0])[4], le_bytes_of(n[0])[5], le_bytes_of(n[0])[6], le_bytes_of(n[0])[7], le_bytes_of(n[1])[0], le_bytes_of(n[1])[1], le_bytes_of(n[1])[2], le_bytes_of(n[1])[3], le_bytes_of(n[1])[4], le_bytes_of(n[1])[5], le_bytes_of(n[1])[6], le_bytes_of(n[1])[7], le_bytes_of(n[2])[0], le_bytes_of(n[2])[1], le_bytes_of(n[2])[2], le_bytes_of(n[2])[3], le_bytes_of(n[2])[4], le_bytes_of(n[2])[5], le_bytes_of(n[2])[6], le_bytes_of(n[2])[7], le_bytes_of(n[3])[0], le_bytes_of(n[3])[1], le_bytes_of(n[3])[2], le_bytes_of(n[3])[3], le_bytes_of(n[3])[4], le_bytes_of(n[3])[5], le_bytes_of(n[3])[6], le_bytes_of(n[3])[7], le_bytes_of(n[4])[0], le_bytes_of(n[4])[1], le_bytes_of(n[4])[2], le_bytes_of(n[4])[3], le_bytes_of(n[4])[4], le_bytes_of(n[4])[5], le_bytes_of(n[4])[6], le_bytes_of(n[4])[7]]
}

/// Arrays with the same chunks are the same.
proof fn lemma_chunks_determine(a: [u8; 40], b: [u8; 40])
    requires
        forall|i: int| 0 <= i < 5 ==> #[trigger] le_chunk(a, i) == le_chunk(b, i),
    ensures
        a == b,
{
    assert forall|j: int| 0 <= j < 40 implies a[j] == b[j] by {
        let i = j / 8;
        assert(le_chunk(a, i) == le_chunk(b, i));
        assert(le_chunk(a, i)[j - 8 * i] == le_chunk(b, i)[j - 8 * i]);
    }
    assert(a =~= b);
}

/// Reverses the bytes of a limb.
fn swap_limb(x: u64) -> (r: u64)
    ensures
        r as int == bytes_val(rev8(le_bytes_of(x))),
{
    let b = limb_to_bytes(x);
    limb_from_bytes([b[7], b[6], b[5], b[4], b[3], b[2], b[1], b[0]])
}

/// Round trip through the little-endian bytes.
pub proof fn lemma_le_bytes_roundtrip(x: DtBig)
    ensures
        DtBig::from_le_bytes_spec(x.to_le_bytes_spec()) == x,
{
    let b = x.to_le_bytes_spec();
    assert(le_chunk(b, 0) =~= le_bytes_of(x.limbs()[0]));
    assert(le_chunk(b, 1) =~= le_bytes_of(x.limbs()[1]));
    assert(le_chunk(b, 2) =~= le_bytes_of(x.limbs()[2]));
    assert(le_chunk(b, 3) =~= le_bytes_of(x.limbs()[3]));
    assert(le_chunk(b, 4) =~= le_bytes_of(x.limbs()[4]));
    lemma_le_bytes_of(x.limbs()[0]);
    lemma_le_bytes_of(x.limbs()[1]);
    lemma_le_bytes_of(x.limbs()[2]);
    lemma_le_bytes_of(x.limbs()[3]);
    lemma_le_bytes_of(x.limbs()[4]);
    DtBig::lemma_from_le_bytes_spec(b, x);
}


/// `wrap` agrees exactly on values congruent modulo `2^320`.
pub proof fn lemma_wrap_mod(x: int)
    ensures
        wrap(x) % modulus() == x % modulus(),
{
    let k = lemma_wrap_offset(x);
    lemma_mod_multiples_vanish(k, x, modulus());
    assert(k * modulus() + x == wrap(x));
}

/// One square-and-multiply step of an exponent.
pub proof fn lemma_pow_step(b: int, e: nat)
    requires
        e > 0,
    ensures
        pow(b, e) == (if e % 2 == 1 { b } else { 1 }) * pow(b * b, e / 2),
{
    let h = e / 2;
    vstd::arithmetic::power::lemma_pow_multiplies(b, 2, h);
    vstd::arithmetic::power::lemma_square_is_pow2(b);
    vstd::arithmetic::power::lemma_pow_adds(b, 2 * h, (e % 2) as nat);
    vstd::arithmetic::power::lemma_pow0(b);
    vstd::arithmetic::power::lemma_pow1(b);
    assert(2 * h + e % 2 == e);
    assert(pow(b, (2 * h) as nat) == pow(b * b, h));
    lemma_mul_is_commutative(pow(b, (2 * h) as nat), pow(b, (e % 2) as nat));
}

/// Whether the square-and-multiply schedule of `DtBig::overflowing_pow`
/// overflows in any of its multiplications (the running result times the
/// base, or the base squared while exponent bits remain), starting from
/// result `r` and base `b`.
pub open spec fn pow_flags(r: int, b: int, e: nat) -> bool
    decreases e,
{
    if e == 0 {
        false
    } else {
        let r2 = if e % 2 == 1 { wrap(r * b) } else { r };
        let o1 = e % 2 == 1 && !in_range(r * b);
        let o2 = e / 2 > 0 && !in_range(b * b);
        o1 || o2 || pow_flags(r2, wrap(b * b), e / 2)
    }
}

/// `|x|`.
pub open spec fn abs_int(x: int) -> int {
    if x < 0 { -x } else { x }
}

/// An odd power of two is not the square of an integer.
proof fn lemma_odd_pow2_not_square(c: int, k: nat)
    ensures
        c * c != pow(2, 2 * k + 1),
    decreases k,
{
    reveal(pow);
    if k == 0 {
        assert(pow(2, 1) == 2 * pow(2, 0));
        assert(c * c != 2) by (nonlinear_arith);
    } else {
        let e = (2 * (k - 1) + 1) as nat;
        assert(pow(2, 2 * k + 1) == 2 * pow(2, (2 * k) as nat));
        assert(pow(2, (2 * k) as nat) == 2 * pow(2, e));
        lemma_odd_pow2_not_square(c / 2, (k - 1) as nat);
        lemma_fundamental_div_mod(c, 2);
        let d = c / 2;
        if c % 2 == 0 {
            assert(c * c == 4 * (d * d)) by (nonlinear_arith) requires c == 2 * d;
        } else {
            assert(c * c == 4 * (d * d + d) + 1) by (nonlinear_arith) requires c == 2 * d + 1;
        }
    }
}

/// `2^319` is not the square of an integer.
proof fn lemma_half_not_square(c: int)
    ensures
        c * c != half(),
{
    lemma2_to64();
    lemma2_to64_rest();
    vstd::arithmetic::power::lemma_pow_positive(2, 64);
    vstd::arithmetic::power::lemma_pow_positive(2, 63);
    let p64 = pow(2, 64);
    let p63 = pow(2, 63);
    assert(p64 == 0x1_0000_0000_0000_0000int);
    assert(p63 == 0x8000_0000_0000_0000int);
    vstd::arithmetic::power::lemma_pow_adds(2, 64, 64);
    vstd::arithmetic::power::lemma_pow_adds(2, 128, 64);
    vstd::arithmetic::power::lemma_pow_adds(2, 192, 64);
    vstd::arithmetic::power::lemma_pow_adds(2, 256, 63);
    assert(pow(2, 128) == p64 * p64);
    assert(pow(2, 192) == pow(2, 128) * p64);
    assert(pow(2, 256) == pow(2, 192) * p64);
    assert(pow(2, 319) == pow(2, 256) * p63);
    assert(pow(2, 319) == half());
    lemma_odd_pow2_not_square(c, 159);
}

/// A `DtBig` is a 320-bit two's-complement integer: values run from
/// `-2^319` to `2^319 - 1`, and wrapping is modulo `2^320`.
pub proof fn lemma_dtbig_is_320_bits()
    ensures
        half() == pow(2, 319),
        modulus() == pow(2, 320),
{
    lemma2_to64();
    lemma2_to64_rest();
    vstd::arithmetic::power::lemma_pow_positive(2, 64);
    vstd::arithmetic::power::lemma_pow_positive(2, 63);
    let p64 = pow(2, 64);
    let p63 = pow(2, 63);
    assert(p64 == 0x1_0000_0000_0000_0000int);
    assert(p63 == 0x8000_0000_0000_0000int);
    vstd::arithmetic::power::lemma_pow_adds(2, 64, 64);
    vstd::arithmetic::power::lemma_pow_adds(2, 128, 64);
    vstd::arithmetic::power::lemma_pow_adds(2, 192, 64);
    vstd::arithmetic::power::lemma_pow_adds(2, 256, 63);
    vstd::arithmetic::power::lemma_pow_adds(2, 256, 64);
    assert(pow(2, 128) == p64 * p64);
    assert(pow(2, 192) == pow(2, 128) * p64);
    assert(pow(2, 256) == pow(2, 192) * p64);
    assert(pow(2, 319) == pow(2, 256) * p63);
    assert(pow(2, 320) == pow(2, 256) * p64);
}

/// Powers of a nonzero integer are nonzero; those of an integer of
/// magnitude at least two grow in magnitude.
proof fn lemma_abs_pow(c: int, k: nat)
    requires
        c != 0,
    ensures
        abs_int(pow(c, k)) >= 1,
        abs_int(c) >= 2 && k >= 1 ==> abs_int(pow(c, k)) >= abs_int(c),
        abs_int(c) >= 2 && k >= 2 ==> abs_int(pow(c, k)) >= c * c,
    decreases k,
{
    reveal(pow);
    if k > 0 {
        lemma_abs_pow(c, (k - 1) as nat);
        let p = pow(c, (k - 1) as nat);
        assert(pow(c, k) == c * p);
        assert(abs_int(c * p) == abs_int(c) * abs_int(p)) by (nonlinear_arith);
        assert(abs_int(c) * abs_int(p) >= 1) by (nonlinear_arith) requires abs_int(c) >= 1, abs_int(p) >= 1;
        if abs_int(c) >= 2 && k >= 1 {
            assert(abs_int(c) * abs_int(p) >= abs_int(c)) by (nonlinear_arith) requires abs_int(c) >= 2, abs_int(p) >= 1;
        }
        if abs_int(c) >= 2 && k >= 2 {
            assert(abs_int(c) * abs_int(p) >= c * c) by (nonlinear_arith)
                requires abs_int(c) >= 2, abs_int(p) >= abs_int(c), abs_int(c) == (if c < 0 { -c } else { c });
        }
    }
}

/// From a result and a base in range, of magnitude at least one and two,
/// the square-and-multiply schedule overflows exactly when the exact power
/// does not fit.
proof fn lemma_pow_flags_exact(r: int, c: int, e: nat)
    requires
        in_range(r),
        in_range(c),
        r != 0,
        abs_int(c) >= 2,
    ensures
        pow_flags(r, c, e) == !in_range(r * pow(c, e)),
    decreases e,
{
    if e == 0 {
        vstd::arithmetic::power::lemma_pow0(c);
    } else {
        lemma_pow_step(c, e);
        lemma_abs_pow(c, e);
        let pe = pow(c, e);
        let o1 = e % 2 == 1 && !in_range(r * c);
        let o2 = e / 2 > 0 && !in_range(c * c);
        let r2 = if e % 2 == 1 { r * c } else { r };
        assert(abs_int(r * pe) == abs_int(r) * abs_int(pe)) by (nonlinear_arith);
        assert(abs_int(r * c) == abs_int(r) * abs_int(c)) by (nonlinear_arith);
        assert(abs_int(r) * abs_int(pe) >= abs_int(pe)) by (nonlinear_arith) requires abs_int(r) >= 1, abs_int(pe) >= 1;
        if o1 {
            if e == 1 {
                vstd::arithmetic::power::lemma_pow1(c);
            } else {
                lemma_abs_pow(c, (e - 1) as nat);
                let q = pow(c, (e - 1) as nat);
                reveal(pow);
                assert(pe == c * q);
                assert(abs_int(q) >= 2);
                assert(abs_int(c * q) == abs_int(c) * abs_int(q)) by (nonlinear_arith);
                assert(abs_int(r) * abs_int(pe) == abs_int(r * c) * abs_int(q)) by (nonlinear_arith)
                    requires pe == c * q, abs_int(r * c) == abs_int(r) * abs_int(c),
                        abs_int(c * q) == abs_int(c) * abs_int(q);
                assert(abs_int(r * c) * abs_int(q) >= 2 * abs_int(r * c)) by (nonlinear_arith)
                    requires abs_int(q) >= 2, abs_int(r * c) >= 0;
            }
        } else if o2 {
            lemma_half_not_square(c);
            assert(c * c >= 0) by (nonlinear_arith);
        } else {
            lemma_wrap(r * c, 0);
            lemma_wrap(c * c, 0);
            assert(abs_int(c * c) >= 4) by (nonlinear_arith) requires abs_int(c) >= 2;
            assert(r2 != 0) by (nonlinear_arith) requires r2 == r || r2 == r * c, r != 0, c != 0;
            if e / 2 == 0 {
                vstd::arithmetic::power::lemma_pow0(c * c);
                assert(pow_flags(r2, wrap(c * c), 0) == false);
            } else {
                lemma_pow_flags_exact(r2, c * c, e / 2);
            }
            let p2 = pow(c * c, e / 2);
            if e % 2 == 1 {
                assert(r * pe == r2 * p2) by (nonlinear_arith) requires pe == c * p2, r2 == r * c;
            } else {
                assert(r * pe == r2 * p2) by (nonlinear_arith) requires pe == 1 * p2, r2 == r;
            }
        }
    }
}

/// A power of a value of magnitude at most one is that value's sign pattern,
/// and the schedule never overflows on it.
proof fn lemma_pow_flags_unit(r: int, c: int, e: nat)
    requires
        r == 1 || r == -1,
        c == 1 || c == -1,
    ensures
        !pow_flags(r, c, e),
    decreases e,
{
    if e > 0 {
        assert(r * c == 1 || r * c == -1) by (nonlinear_arith) requires r == 1 || r == -1, c == 1 || c == -1;
        assert(c * c == 1) by (nonlinear_arith) requires c == 1 || c == -1;
        lemma_wrap(r * c, 0);
        lemma_wrap(c * c, 0);
        let r2 = if e % 2 == 1 { r * c } else { r };
        lemma_pow_flags_unit(r2, 1, e / 2);
    }
}

/// `|b^e| = |b|^e` is at most one when `|b|` is at most one.
proof fn lemma_pow_unit(c: int, e: nat)
    requires
        c == 1 || c == -1,
    ensures
        pow(c, e) == 1 || pow(c, e) == -1,
    decreases e,
{
    reveal(pow);
    if e > 0 {
        lemma_pow_unit(c, (e - 1) as nat);
    }
}

/// `checked_pow` and `overflowing_pow` report an overflow exactly when the
/// exact power lies outside `[MIN, MAX]`.
pub proof fn lemma_pow_overflow_exact(b: DtBig, e: u32)
    ensures
        (e != 0 && b.sval() != 0 && pow_flags(1, b.sval(), e as nat)) == !in_range(pow(b.sval(), e as nat)),
{
    b.lemma_bounds();
    let x = b.sval();
    if e == 0 {
        vstd::arithmetic::power::lemma_pow0(x);
    } else if x == 0 {
        vstd::arithmetic::power::lemma0_pow(e as nat);
    } else if x == 1 || x == -1 {
        lemma_pow_flags_unit(1, x, e as nat);
        lemma_pow_unit(x, e as nat);
    } else {
        lemma_pow_flags_exact(1, x, e as nat);
    }
}

impl DtBig {
    /// Raises `self` to the power of `exp`, wrapping on overflow.
    pub fn wrapping_pow(self, exp: u32) -> (r: Self)
        ensures
            r.sval() == wrap(pow(self.sval(), exp as nat)),
    {
        proof {
            vstd::arithmetic::power::lemma_pow0(self.sval());
            lemma_wrap(1, 0);
            self.lemma_bounds();
        }
        if exp == 0 {
            return Self::one();
        }
        if self.is_zero() {
            proof { vstd::arithmetic::power::lemma0_pow(exp as nat); lemma_wrap(0, 0); }
            return Self::zero();
        }
        let mut base = self;
        let mut result = Self::one();
        let mut e = exp;
        while e > 0
            invariant
                (result.sval() * pow(base.sval(), e as nat)) % modulus() == pow(self.sval(), exp as nat) % modulus(),
            decreases e,
        {
            let ghost r0 = result.sval();
            let ghost b0 = base.sval();
            let ghost e0 = e as nat;
            if e % 2 == 1 {
                result = result.wrapping_mul(base);
            }
            base = base.wrapping_mul(base);
            e = e / 2;
            proof {
                let m = modulus();
                lemma_pow_step(b0, e0);
                lemma_wrap_mod(r0 * b0);
                lemma_wrap_mod(b0 * b0);
                vstd::arithmetic::power::lemma_pow_mod_noop(base.sval(), e as nat, m);
                vstd::arithmetic::power::lemma_pow_mod_noop(b0 * b0, e as nat, m);
                let p = pow(b0 * b0, e as nat);
                assert(pow(base.sval(), e as nat) % m == p % m);
                lemma_mul_mod_noop_general(result.sval(), pow(base.sval(), e as nat), m);
                if e0 % 2 == 1 {
                    assert(result.sval() % m == (r0 * b0) % m);
                    lemma_mul_mod_noop_general(r0 * b0, p, m);
                    lemma_mul_is_associative(r0, b0, p);
                } else {
                    lemma_mul_mod_noop_general(r0, p, m);
                    assert(pow(b0, e0) == 1 * p);
                }
            }
        }
        proof {
            vstd::arithmetic::power::lemma_pow0(base.sval());
            lemma_mul_basics(result.sval());
            lemma_wrap_mod(pow(self.sval(), exp as nat));
            assert(wrap(result.sval()) == result.sval()) by { result.lemma_bounds(); lemma_wrap(result.sval(), 0); }
        }
        result
    }

    /// Alias for `wrapping_pow`.
    pub fn pow(self, exp: u32) -> (r: Self)
        ensures
            r.sval() == wrap(pow(self.sval(), exp as nat)),
    {
        self.wrapping_pow(exp)
    }

    /// The wrapped power and a flag telling whether any multiplication of the
    /// square-and-multiply schedule overflowed, which is exactly when the
    /// power lies outside `[MIN, MAX]`.
    pub fn overflowing_pow(self, exp: u32) -> (r: (Self, bool))
        ensures
            r.0.sval() == wrap(pow(self.sval(), exp as nat)),
            r.1 == (exp != 0 && self.sval() != 0 && pow_flags(1, self.sval(), exp as nat)),
            r.1 == !in_range(pow(self.sval(), exp as nat)),
            !r.1 ==> r.0.sval() == pow(self.sval(), exp as nat),
    {
        proof {
            lemma_pow_overflow_exact(self, exp);
            vstd::arithmetic::power::lemma_pow0(self.sval());
            lemma_wrap(1, 0);
            self.lemma_bounds();
        }
        if exp == 0 {
            return (Self::one(), false);
        }
        if self.is_zero() {
            proof { vstd::arithmetic::power::lemma0_pow(exp as nat); lemma_wrap(0, 0); }
            return (Self::zero(), false);
        }
        let mut base = self;
        let mut result = Self::one();
        let mut e = exp;
        let mut overflow = false;
        while e > 0
            invariant
                (result.sval() * pow(base.sval(), e as nat)) % modulus() == pow(self.sval(), exp as nat) % modulus(),
                (overflow || pow_flags(result.sval(), base.sval(), e as nat)) == pow_flags(1, self.sval(), exp as nat),
                !overflow ==> result.sval() * pow(base.sval(), e as nat) == pow(self.sval(), exp as nat),
            decreases e,
        {
            let ghost r0 = result.sval();
            let ghost b0 = base.sval();
            let ghost e0 = e as nat;
            let ghost ov0 = overflow;
            if e % 2 == 1 {
                let (r, o) = result.overflowing_mul(base);
                result = r;
                overflow = overflow || o;
            }
            e = e / 2;
            if e > 0 {
                let (b, o) = base.overflowing_mul(base);
                base = b;
                overflow = overflow || o;
            }
            proof {
                let m = modulus();
                lemma_pow_step(b0, e0);
                lemma_wrap_mod(r0 * b0);
                lemma_wrap_mod(b0 * b0);
                if e == 0 {
                    vstd::arithmetic::power::lemma_pow0(base.sval());
                    vstd::arithmetic::power::lemma_pow0(b0 * b0);
                    assert(!pow_flags(result.sval(), base.sval(), 0));
                    assert(!pow_flags(result.sval(), wrap(b0 * b0), 0));
                } else {
                    assert(base.sval() == wrap(b0 * b0));
                }
                assert(pow_flags(r0, b0, e0) == (
                    (e0 % 2 == 1 && !in_range(r0 * b0)) || (e0 / 2 > 0 && !in_range(b0 * b0))
                        || pow_flags(if e0 % 2 == 1 { wrap(r0 * b0) } else { r0 }, wrap(b0 * b0), e0 / 2)));
                vstd::arithmetic::power::lemma_pow_mod_noop(base.sval(), e as nat, m);
                vstd::arithmetic::power::lemma_pow_mod_noop(b0 * b0, e as nat, m);
                let p = pow(b0 * b0, e as nat);
                assert(pow(base.sval(), e as nat) % m == p % m);
                lemma_mul_mod_noop_general(result.sval(), pow(base.sval(), e as nat), m);
                lemma_wrap(r0 * b0, 0);
                lemma_wrap(b0 * b0, 0);
                if e0 % 2 == 1 {
                    assert(result.sval() % m == (r0 * b0) % m);
                    lemma_mul_mod_noop_general(r0 * b0, p, m);
                    lemma_mul_is_associative(r0, b0, p);
                } else {
                    lemma_mul_mod_noop_general(r0, p, m);
                    assert(pow(b0, e0) == 1 * p);
                }
            }
        }
        proof {
            vstd::arithmetic::power::lemma_pow0(base.sval());
            lemma_mul_basics(result.sval());
            lemma_wrap_mod(pow(self.sval(), exp as nat));
            assert(wrap(result.sval()) == result.sval()) by { result.lemma_bounds(); lemma_wrap(result.sval(), 0); }
        }
        (result, overflow)
    }

    /// Checked power: `None` exactly when the power lies outside `[MIN, MAX]`.
    pub fn checked_pow(self, exp: u32) -> (r: Option<Self>)
        ensures
            r is None <==> !in_range(pow(self.sval(), exp as nat)),
            r matches Some(v) ==> v.sval() == pow(self.sval(), exp as nat),
    {
        let (res, overflow) = self.overflowing_pow(exp);
        if overflow { None } else { Some(res) }
    }

    /// Saturating power: on overflow, `MIN` when the base is negative and the
    /// exponent odd, `MAX` otherwise.
    pub fn saturating_pow(self, exp: u32) -> (r: Self)
        ensures
            in_range(pow(self.sval(), exp as nat)) ==> r.sval() == pow(self.sval(), exp as nat),
            !in_range(pow(self.sval(), exp as nat)) ==> r.sval()
                == (if self.sval() < 0 && exp % 2 == 1 { -half() } else { half() - 1 }),
    {
        let (res, overflow) = self.overflowing_pow(exp);
        if !overflow {
            return res;
        }
        let result_negative = self.is_negative() && exp % 2 == 1;
        if result_negative { Self::min_value() } else { Self::max_value() }
    }
}

impl core::ops::Shl<u32> for DtBig {
    type Output = DtBig;

    fn shl(self, rhs: u32) -> (r: DtBig) {
        let r = self.wrapping_shl(rhs);
        proof {
            lemma_wrap(0, 0);
            if rhs >= 320 {
                DtBig::lemma_of_int(0, r);
            } else {
                DtBig::lemma_of_int(self.sval() * (pow2(rhs as nat) as int), r);
            }
        }
        r
    }
}

impl vstd::std_specs::ops::ShlSpecImpl<u32> for DtBig {
    open spec fn obeys_shl_spec() -> bool { true }
    open spec fn shl_req(self, rhs: u32) -> bool { true }
    open spec fn shl_spec(self, rhs: u32) -> DtBig {
        if rhs >= 320 { DtBig::of_int(0) } else { DtBig::of_int(self.sval() * (pow2(rhs as nat) as int)) }
    }
}

impl core::ops::Shr<u32> for DtBig {
    type Output = DtBig;

    fn shr(self, rhs: u32) -> (r: DtBig) {
        let r = self.wrapping_shr(rhs);
        proof {
            r.lemma_bounds();
            lemma_wrap(r.sval(), 0);
            DtBig::lemma_of_int(self.sval() / (pow2(rhs as nat) as int), r);
        }
        r
    }
}

impl vstd::std_specs::ops::ShrSpecImpl<u32> for DtBig {
    open spec fn obeys_shr_spec() -> bool { true }
    open spec fn shr_req(self, rhs: u32) -> bool { true }
    open spec fn shr_spec(self, rhs: u32) -> DtBig { DtBig::of_int(self.sval() / (pow2(rhs as nat) as int)) }
}


/// `true` when the byte is an ASCII decimal digit.
pub open spec fn is_digit(b: u8) -> bool {
    48 <= b <= 57
}

/// The decimal value of a sequence of digit bytes, most significant first.
pub open spec fn dec_val(s: Seq<u8>) -> int
    decreases s.len(),
{
    if s.len() == 0 { 0 } else { dec_val(s.drop_last()) * 10 + (s.last() - 48) }
}

/// The number of leading digit bytes.
pub open spec fn first_non_digit(s: Seq<u8>) -> int
    decreases s.len(),
{
    if s.len() == 0 || !is_digit(s[0]) { 0 } else { 1 + first_non_digit(s.drop_first()) }
}

/// The leading digits end exactly at the first byte that is not a digit.
proof fn lemma_first_non_digit(s: Seq<u8>, p: int)
    requires
        0 <= p <= s.len(),
        forall|k: int| 0 <= k < p ==> is_digit(#[trigger] s[k]),
        p == s.len() || !is_digit(s[p]),
    ensures
        first_non_digit(s) == p,
    decreases p,
{
    if p > 0 {
        let t = s.drop_first();
        assert forall|k: int| 0 <= k < p - 1 implies is_digit(#[trigger] t[k]) by {
            assert(t[k] == s[k + 1]);
        }
        if p < s.len() {
            assert(t[p - 1] == s[p]);
        }
        lemma_first_non_digit(t, p - 1);
    }
}

/// The leading digit run covers any all-digit prefix.
proof fn lemma_first_non_digit_at_least(s: Seq<u8>, p: int)
    requires
        0 <= p <= s.len(),
        forall|k: int| 0 <= k < p ==> is_digit(#[trigger] s[k]),
    ensures
        p <= first_non_digit(s) <= s.len(),
    decreases p,
{
    lemma_first_non_digit_digits(s);
    if p > 0 {
        let t = s.drop_first();
        assert forall|k: int| 0 <= k < p - 1 implies is_digit(#[trigger] t[k]) by {
            assert(t[k] == s[k + 1]);
        }
        lemma_first_non_digit_at_least(t, p - 1);
    }
}

/// Every byte before the first non-digit is a digit.
proof fn lemma_first_non_digit_digits(s: Seq<u8>)
    ensures
        0 <= first_non_digit(s) <= s.len(),
        forall|k: int| 0 <= k < first_non_digit(s) ==> is_digit(#[trigger] s[k]),
    decreases s.len(),
{
    if s.len() > 0 && is_digit(s[0]) {
        let t = s.drop_first();
        lemma_first_non_digit_digits(t);
        assert forall|k: int| 0 <= k < first_non_digit(s) implies is_digit(#[trigger] s[k]) by {
            if k > 0 {
                assert(s[k] == t[k - 1]);
            }
        }
    }
}

/// The digits after an optional leading sign.
pub open spec fn unsigned_part(s: Seq<u8>) -> Seq<u8> {
    if s.len() > 0 && (s[0] == 45 || s[0] == 43) { s.drop_first() } else { s }
}

/// The outcome of parsing a decimal byte string, as `DtBig::parse_bytes` has it.
pub open spec fn parse_spec(s: Seq<u8>) -> Result<int, ParseErrorKind> {
    let neg = s.len() > 0 && s[0] == 45;
    let d = unsigned_part(s);
    if s.len() == 0 {
        Err(ParseErrorKind::Empty)
    } else if d.len() == 0 {
        Err(ParseErrorKind::InvalidDigit)
    } else if dec_val(d.take(first_non_digit(d))) >= modulus() {
        Err(ParseErrorKind::Overflow)
    } else if first_non_digit(d) < d.len() {
        Err(ParseErrorKind::InvalidDigit)
    } else if dec_val(d) >= half() && !(neg && dec_val(d) == half()) {
        Err(ParseErrorKind::Overflow)
    } else {
        Ok(if neg { -dec_val(d) } else { dec_val(d) })
    }
}

/// Why parsing a `DtBig` failed.
#[derive(Debug, Clone, Copy, PartialEq, Eq)]
pub enum ParseErrorKind {
    Empty,
    InvalidDigit,
    Overflow,
}

/// Error returned when parsing a string into `DtBig` fails.
#[derive(Debug, Clone, Copy, PartialEq, Eq)]
pub struct ParseDtBigError {
    pub kind: ParseErrorKind,
}

impl ParseDtBigError {
    fn new(kind: ParseErrorKind) -> (r: Self)
        ensures
            r.kind == kind,
    {
        Self { kind }
    }
}

/// Prefix values of digit strings never decrease.
proof fn lemma_dec_val_monotone(s: Seq<u8>, i: int, j: int)
    requires
        0 <= i <= j <= s.len(),
        forall|k: int| 0 <= k < j ==> is_digit(#[trigger] s[k]),
    ensures
        0 <= dec_val(s.take(i)) <= dec_val(s.take(j)),
    decreases j - i,
{
    if i < j {
        lemma_dec_val_monotone(s, i, j - 1);
        assert(s.take(j).drop_last() =~= s.take(j - 1));
        assert(s.take(j).last() == s[j - 1]);
    } else {
        lemma_dec_val_nonneg(s.take(j));
    }
}

/// Digit strings have nonnegative values.
proof fn lemma_dec_val_nonneg(s: Seq<u8>)
    requires
        forall|k: int| 0 <= k < s.len() ==> is_digit(#[trigger] s[k]),
    ensures
        dec_val(s) >= 0,
    decreases s.len(),
{
    if s.len() > 0 {
        lemma_dec_val_nonneg(s.drop_last());
    }
}

/// Extending a prefix by one digit.
proof fn lemma_dec_val_step(d: Seq<u8>, p: int)
    requires
        0 <= p < d.len(),
    ensures
        dec_val(d.take(p + 1)) == dec_val(d.take(p)) * 10 + (d[p] - 48),
{
    assert(d.take(p + 1).drop_last() =~= d.take(p));
    assert(d.take(p + 1).last() == d[p]);
}

/// Multiplies five limbs by ten and adds a digit; returns the carry out.
fn mul10_add(n: [u64; 5], d: u64) -> (r: ([u64; 5], u64))
    requires
        d < 10,
    ensures
        limbs_val(r.0) + r.1 as int * modulus() == 10 * limbs_val(n) + d as int,
{
    let (l0, c0) = mac(n[0], 10, d, 0);
    let (l1, c1) = mac(n[1], 10, c0, 0);
    let (l2, c2) = mac(n[2], 10, c1, 0);
    let (l3, c3) = mac(n[3], 10, c2, 0);
    let (l4, c4) = mac(n[4], 10, c3, 0);
    ([l0, l1, l2, l3, l4], c4)
}

impl DtBig {
    /// Parses a decimal byte slice into a `DtBig`.
    ///
    /// An optional leading `+` or `-`; leading zeros are allowed; no
    /// whitespace is trimmed; values outside `[MIN, MAX]` are an overflow.
    pub fn parse_bytes(bytes: &[u8]) -> (r: Result<Self, ParseDtBigError>)
        ensures
            match parse_spec(bytes@) {
                Ok(v) => r matches Ok(x) && x.sval() == v,
                Err(k) => r matches Err(e) && e.kind == k,
            },
    {
        let len = bytes.len();
        if len == 0 {
            return Err(ParseDtBigError::new(ParseErrorKind::Empty));
        }
        let negative = bytes[0] == 45u8;
        let start: usize = if bytes[0] == 45u8 || bytes[0] == 43u8 { 1 } else { 0 };
        let ghost d = unsigned_part(bytes@);
        proof {
            assert(d =~= bytes@.subrange(start as int, len as int));
        }
        if start == len {
            return Err(ParseDtBigError::new(ParseErrorKind::InvalidDigit));
        }
        proof {
            assert(d.len() == len - start);
        }
        let mut result = [0u64; 5];
        let mut i = start;
        proof {
            assert(d.len() == len - start);
            assert(d.take(0) =~= Seq::<u8>::empty());
        }
        while i < len
            invariant
                start <= i <= len,
                len == bytes@.len(),
                start < len,
                d == unsigned_part(bytes@),
                d.len() == len - start,
                forall|k: int| 0 <= k < d.len() ==> #[trigger] d[k] == bytes@[start + k],
                forall|k: int| 0 <= k < i - start ==> is_digit(#[trigger] d[k]),
                limbs_val(result) == dec_val(d.take(i - start)),
            decreases len - i,
        {
            let b = bytes[i];
            let ghost p = i - start;
            proof {
                assert(d[p] == b);
            }
            if !(48u8 <= b && b <= 57u8) {
                proof {
                    lemma_first_non_digit(d, p);
                    DtBig { num: result }.lemma_bounds();
                    assert(first_non_digit(d) == p);
                    assert(dec_val(d.take(first_non_digit(d))) < modulus());
                    assert(parse_spec(bytes@) == Err::<int, ParseErrorKind>(ParseErrorKind::InvalidDigit));
                }
                return Err(ParseDtBigError::new(ParseErrorKind::InvalidDigit));
            }
            let (next, carry) = mul10_add(result, (b - 48u8) as u64);
            proof {
                lemma_dec_val_step(d, p);
            }
            if carry != 0 {
                proof {
                    DtBig { num: next }.lemma_bounds();
                    assert(dec_val(d.take(p + 1)) >= modulus());
                    lemma_first_non_digit_at_least(d, p + 1);
                    let f = first_non_digit(d);
                    lemma_first_non_digit_digits(d);
                    lemma_dec_val_monotone(d, p + 1, f);
                }
                return Err(ParseDtBigError::new(ParseErrorKind::Overflow));
            }
            result = next;
            i = i + 1;
        }
        let r = DtBig { num: result };
        proof {
            assert(d.take(d.len() as int) =~= d);
            lemma_first_non_digit(d, d.len() as int);
            r.lemma_bounds();
            lemma_wrap(-r.uval(), 1);
            assert(negative == (bytes@[0] == 45));
            assert(dec_val(d) == r.uval());
            assert(first_non_digit(d) == d.len());
        }
        if r.is_negative() {
            if !negative || !r.eq(Self::min_value()) {
                return Err(ParseDtBigError::new(ParseErrorKind::Overflow));
            }
        }
        Ok(if negative { r.neg() } else { r })
    }
}

impl core::str::FromStr for DtBig {
    type Err = ParseDtBigError;

    fn from_str(s: &str) -> Result<DtBig, ParseDtBigError> {
        DtBig::parse_bytes(s.as_bytes())
    }
}

} // verus!
